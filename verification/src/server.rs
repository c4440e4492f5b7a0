//! The two request protocols of the rules server: a line-based text protocol
//! and a JSON-lines protocol whose requests and responses are plain records
//! here (reading and writing JSON happens at the program's edge).

use sha2::{Digest, Sha256};
use vstd::prelude::*;

use crate::game::render::observation_text;
use crate::game::Game;
use crate::text::{decimal, parse_unsigned, parse_unsigned_exec, push_decimal, push_str, string_of};
use crate::game::actions::action_done;
use crate::types::{
    action_text, contains_action, error_text, same_action_spec, parse_faction, spec_parse_faction, Action, Faction, GameError,
};

verus! {

/// The separators between words of a request line: the characters with the
/// Unicode `White_Space` property.
pub open spec fn is_space(c: char) -> bool {
    ||| c == ' ' || c == '\t' || c == '\n' || c == '\r' || c == '\x0B' || c == '\x0C'
    ||| c == '\u{85}' || c == '\u{A0}' || c == '\u{1680}'
    ||| ('\u{2000}' <= c && c <= '\u{200A}')
    ||| c == '\u{2028}' || c == '\u{2029}' || c == '\u{202F}' || c == '\u{205F}' || c == '\u{3000}'
}

/// Whether `c` separates words.
fn space(c: char) -> (r: bool)
    ensures
        r == is_space(c),
{
    c == ' ' || c == '\t' || c == '\n' || c == '\r' || c == '\x0B' || c == '\x0C' || c == '\u{85}' || c
        == '\u{A0}' || c == '\u{1680}' || ('\u{2000}' <= c && c <= '\u{200A}') || c == '\u{2028}' || c
        == '\u{2029}' || c == '\u{202F}' || c == '\u{205F}' || c == '\u{3000}'
}

/// The words of a line, as separated by whitespace.
pub open spec fn split_words(s: Seq<char>) -> Seq<Seq<char>>
    decreases s.len(),
{
    if s.len() == 0 {
        seq![]
    } else {
        let prev = split_words(s.drop_last());
        let c = s.last();
        if is_space(c) {
            prev
        } else if s.len() >= 2 && !is_space(s[s.len() - 2]) && prev.len() > 0 {
            prev.update(prev.len() - 1, prev.last().push(c))
        } else {
            prev.push(seq![c])
        }
    }
}

/// Splits a line into words.
pub fn words(line: &str) -> (r: Vec<String>)
    ensures
        r@.map_values(|w: String| w@) == split_words(line@),
{
    let n = line.unicode_len();
    let ghost s = line@;
    let mut out: Vec<String> = Vec::new();
    let mut current = String::new();
    let mut in_word = false;
    let mut i: usize = 0;
    proof {
        assert(s.subrange(0, 0) =~= Seq::<char>::empty());
        assert(out@.map_values(|w: String| w@) =~= Seq::<Seq<char>>::empty());
    }
    while i < n
        invariant
            n == s.len(),
            s == line@,
            i <= n,
            in_word == (i > 0 && !is_space(s[i - 1])),
            in_word ==> current@.len() > 0,
            split_words(s.subrange(0, i as int)) == if in_word {
                out@.map_values(|w: String| w@).push(current@)
            } else {
                out@.map_values(|w: String| w@)
            },
        decreases n - i,
    {
        let c = line.get_char(i);
        let ghost prev_view = split_words(s.subrange(0, i as int));
        proof {
            assert(s.subrange(0, i + 1).drop_last() =~= s.subrange(0, i as int));
            assert(s.subrange(0, i + 1).last() == c);
            if i > 0 {
                assert(s.subrange(0, i + 1)[i - 1] == s[i - 1]);
            }
        }
        if space(c) {
            if in_word {
                let ghost before = out@;
                let mut done = String::new();
                std::mem::swap(&mut done, &mut current);
                out.push(done);
                proof {
                    assert(out@.map_values(|w: String| w@) =~= before.map_values(|w: String| w@).push(done@));
                }
                in_word = false;
            }
        } else {
            if in_word {
                current.push(c);
            } else {
                current = String::new();
                current.push(c);
                proof {
                    assert(current@ =~= seq![c]);
                }
                in_word = true;
            }
        }
        i = i + 1;
    }
    if in_word {
        let ghost before = out@;
        out.push(current);
        proof {
            assert(out@.map_values(|w: String| w@) =~= before.map_values(|w: String| w@).push(current@));
        }
    }
    proof {
        assert(s.subrange(0, n as int) =~= s);
    }
    out
}


/// What a text request is answered with.
pub enum Reply {
    /// A blank line: nothing is sent.
    Silent,
    /// `quit`: the session ends.
    Quit,
    Message(String),
}

/// Whether `r` is the message `text`.
pub open spec fn says(r: Reply, text: Seq<char>) -> bool {
    match r {
        Reply::Message(m) => m@ == text,
        _ => false,
    }
}

/// Whether `game` is a fresh game set up from `seed`.
pub open spec fn new_game_with(game: Option<Game>, seed: nat) -> bool {
    match game {
        Some(g) => g.seed == seed && g.turn == 0 && g.winner is None && g.pending_decision is None
            && crate::game::set_up_from(g, seed as u64),
        None => false,
    }
}

/// What `choose <player> <number>` does to the game `game` (becoming
/// `after`) and answers (`r`): with no game, no faction or no number it is
/// refused; a number past the end of that faction's legal actions is
/// refused; otherwise that action is applied and the faction's new view is
/// the answer. A refusal changes nothing.
pub open spec fn text_choice(
    game: Option<Game>,
    player: Option<Seq<char>>,
    number: Option<Seq<char>>,
    r: Seq<char>,
    after: Option<Game>,
) -> bool {
    let p = match player {
        Some(w) => spec_parse_faction(w),
        None => None,
    };
    let n = match number {
        Some(w) => parse_unsigned(w, usize::MAX as nat),
        None => None,
    };
    match game {
        None => r == no_game_text() && after is None,
        Some(g) => if p is None {
            r == "error: choose requires fellowship or sauron"@ && after == game
        } else if n is None {
            r == "error: choose requires an action number from that player's latest response"@ && after == game
        } else if n->0 >= g.legal_for(p->0).len() {
            r == "error: action number is not legal in the current state"@ && after == game
        } else {
            after matches Some(g2) && action_done(g, g.legal_for(p->0)[n->0 as int], g2) && r == observation_text(
                g2,
                p->0,
            )
        },
    }
}

pub open spec fn no_game_text() -> Seq<char> {
    "error: start a game with 'new [seed]'"@
}

pub open spec fn help_text() -> Seq<char> {
    "commands: new [seed] | state <fellowship|sauron> | choose <fellowship|sauron> <action-number> | help | quit"@
}

/// The reply to `state` or `legal`.
pub open spec fn observation_reply(game: Option<Game>, word: Option<Seq<char>>) -> Seq<char> {
    match game {
        None => no_game_text(),
        Some(g) => match word {
            Some(w) => match spec_parse_faction(w) {
                Some(f) => observation_text(g, f),
                None => "error: state requires fellowship or sauron"@,
            },
            None => "error: state requires fellowship or sauron"@,
        },
    }
}

/// A session of the text protocol: at most one game at a time.
pub struct TextSession {
    pub game: Option<Game>,
}

impl TextSession {
    pub open spec fn wf(&self) -> bool {
        self.game matches Some(g) ==> g.wf()
    }

    /// A session with no game yet.
    pub fn new() -> (r: TextSession)
        ensures
            r.wf(),
            r.game is None,
    {
        TextSession { game: None }
    }

    /// Answers one request line: `new [seed]`, `state <faction>` (or `legal`),
    /// `choose <faction> <action-number>`, `help` or `quit`.
    pub fn handle_line(&mut self, line: &str) -> (r: Reply)
        requires
            old(self).wf(),
        ensures
            final(self).wf(),
            ({
                let w = split_words(line@);
                &&& w.len() == 0 ==> r is Silent && final(self).game == old(self).game
                &&& w.len() > 0 && w[0] == "quit"@ ==> r is Quit && final(self).game == old(self).game
                &&& w.len() > 0 && w[0] == "help"@ ==> says(r, help_text()) && final(self).game == old(self).game
                &&& w.len() > 0 && (w[0] == "state"@ || w[0] == "legal"@) ==> says(
                    r,
                    observation_reply(old(self).game, if w.len() > 1 { Some(w[1]) } else { None }),
                ) && final(self).game == old(self).game
                &&& w.len() > 0 && w[0] == "new"@ && w.len() > 1 && parse_unsigned(w[1], u64::MAX as nat) is None
                    ==> says(r, "error: seed must be an unsigned integer"@) && final(self).game == old(self).game
                &&& w.len() > 0 && w[0] == "new"@ && (w.len() == 1 || parse_unsigned(w[1], u64::MAX as nat) is Some)
                    ==> says(r, "game created; use `state <fellowship|sauron>`"@) && new_game_with(
                    final(self).game,
                    if w.len() == 1 { 0 } else { parse_unsigned(w[1], u64::MAX as nat)->0 },
                )
                &&& w.len() > 0 && w[0] == "choose"@ ==> (r matches Reply::Message(m) && text_choice(
                    old(self).game,
                    if w.len() > 1 { Some(w[1]) } else { None },
                    if w.len() > 2 { Some(w[2]) } else { None },
                    m@,
                    final(self).game,
                ))
                &&& w.len() > 0 && w[0] != "quit"@ && w[0] != "help"@ && w[0] != "state"@ && w[0] != "legal"@
                    && w[0] != "new"@ && w[0] != "choose"@ ==> says(r, "error: unknown command (use 'help')"@)
                    && final(self).game == old(self).game
            }),
    {
        proof {
            reveal_strlit("quit");
            reveal_strlit("help");
            reveal_strlit("state");
            reveal_strlit("legal");
            reveal_strlit("new");
            reveal_strlit("choose");
            let names = seq!["quit"@, "help"@, "state"@, "legal"@, "new"@, "choose"@];
            assert(forall|i: int, j: int| 0 <= i < j < 6 ==> names[i] != names[j]) by {
                assert("quit"@[0] != "help"@[0]);
                assert("state"@[0] != "legal"@[0]);
                assert("quit"@.len() != "state"@.len());
                assert("quit"@.len() != "legal"@.len());
                assert("quit"@.len() != "new"@.len());
                assert("quit"@.len() != "choose"@.len());
                assert("help"@.len() != "state"@.len());
                assert("help"@.len() != "legal"@.len());
                assert("help"@.len() != "new"@.len());
                assert("help"@.len() != "choose"@.len());
                assert("state"@.len() != "new"@.len());
                assert("state"@.len() != "choose"@.len());
                assert("legal"@.len() != "new"@.len());
                assert("legal"@.len() != "choose"@.len());
                assert("new"@.len() != "choose"@.len());
            }
            assert("quit"@ != "help"@ && "quit"@ != "state"@ && "quit"@ != "legal"@ && "quit"@ != "new"@
                && "quit"@ != "choose"@);
            assert("help"@ != "state"@ && "help"@ != "legal"@ && "help"@ != "new"@ && "help"@ != "choose"@);
            assert("state"@ != "legal"@ && "state"@ != "new"@ && "state"@ != "choose"@);
            assert("legal"@ != "new"@ && "legal"@ != "choose"@ && "new"@ != "choose"@);
        }
        let w = words(line);
        proof {
            assert(w@.map_values(|x: String| x@).len() == w@.len());
            if w@.len() > 0 {
                assert(w@.map_values(|x: String| x@)[0] == w@[0]@);
            }
            if w@.len() > 1 {
                assert(w@.map_values(|x: String| x@)[1] == w@[1]@);
            }
            if w@.len() > 2 {
                assert(w@.map_values(|x: String| x@)[2] == w@[2]@);
            }
        }
        if w.len() == 0 {
            return Reply::Silent;
        }
        let command = w[0].as_str();
        if crate::text::same_text(command, "quit") {
            return Reply::Quit;
        }
        if crate::text::same_text(command, "help") {
            return Reply::Message(string_of(
                "commands: new [seed] | state <fellowship|sauron> | choose <fellowship|sauron> <action-number> | help | quit",
            ));
        }
        if crate::text::same_text(command, "state") || crate::text::same_text(command, "legal") {
            let word = if w.len() > 1 { Some(w[1].as_str()) } else { None };
            return Reply::Message(self.observation(word));
        }
        if crate::text::same_text(command, "new") {
            let seed = if w.len() > 1 {
                match parse_unsigned_exec(w[1].as_str(), u64::MAX) {
                    Some(seed) => seed,
                    None => { return Reply::Message(string_of("error: seed must be an unsigned integer")); },
                }
            } else {
                0
            };
            self.game = Some(Game::new(seed));
            return Reply::Message(string_of("game created; use `state <fellowship|sauron>`"));
        }
        if crate::text::same_text(command, "choose") {
            let player = if w.len() > 1 { Some(w[1].as_str()) } else { None };
            let number = if w.len() > 2 { Some(w[2].as_str()) } else { None };
            return Reply::Message(self.choose_action(player, number));
        }
        Reply::Message(string_of("error: unknown command (use 'help')"))
    }

    /// The observation for the faction named by `word`.
    fn observation(&self, word: Option<&str>) -> (r: String)
        requires
            self.wf(),
        ensures
            r@ == observation_reply(self.game, match word {
                Some(w) => Some(w@),
                None => None,
            }),
    {
        let game = match &self.game {
            Some(g) => g,
            None => { return string_of("error: start a game with 'new [seed]'"); },
        };
        let player = match word {
            Some(w) => parse_faction(w),
            None => None,
        };
        match player {
            Some(p) => game.render_observation_for(p),
            None => string_of("error: state requires fellowship or sauron"),
        }
    }

    /// Applies the numbered action of the named faction's latest list.
    fn choose_action(&mut self, player: Option<&str>, number: Option<&str>) -> (r: String)
        requires
            old(self).wf(),
        ensures
            final(self).wf(),
            text_choice(
                old(self).game,
                match player {
                    Some(w) => Some(w@),
                    None => None,
                },
                match number {
                    Some(w) => Some(w@),
                    None => None,
                },
                r@,
                final(self).game,
            ),
    {
        let game = match &mut self.game {
            Some(g) => g,
            None => { return string_of("error: start a game with 'new [seed]'"); },
        };
        let player = match player {
            Some(p) => parse_faction(p),
            None => None,
        };
        let player = match player {
            Some(p) => p,
            None => { return string_of("error: choose requires fellowship or sauron"); },
        };
        let index = match number {
            Some(n) => parse_unsigned_exec(n, usize::MAX as u64),
            None => None,
        };
        let index = match index {
            Some(i) => i as usize,
            None => { return string_of("error: choose requires an action number from that player's latest response"); },
        };
        let mut actions = game.legal_actions_for(player);
        if index >= actions.len() {
            return string_of("error: action number is not legal in the current state");
        }
        let ghost all = actions@;
        let action = actions.remove(index);
        proof {
            assert(all[index as int] == action);
            assert(same_action_spec(all[index as int], action));
            assert(contains_action(all, action));
        }
        match game.apply_for(player, action) {
            Ok(()) => game.render_observation_for(player),
            Err(error) => {
                let mut s = string_of("error: ");
                push_str(&mut s, error.text().as_str());
                s
            },
        }
    }
}

/// The version of the JSON-lines protocol this session speaks.
pub const JSONL_PROTOCOL_VERSION: u32 = 1;

/// A request of the JSON-lines protocol.
pub enum JsonRequest {
    Hello { protocol_version: u32, request_id: String },
    New { protocol_version: u32, request_id: String, seed: Option<u64> },
    State { protocol_version: u32, request_id: String, game_id: String, faction: String },
    Choose {
        protocol_version: u32,
        request_id: String,
        game_id: String,
        state_revision: u64,
        turn: u32,
        state_hash: String,
        faction: String,
        action_id: String,
    },
}

impl JsonRequest {
    pub open spec fn version(&self) -> u32 {
        match *self {
            JsonRequest::Hello { protocol_version, .. } => protocol_version,
            JsonRequest::New { protocol_version, .. } => protocol_version,
            JsonRequest::State { protocol_version, .. } => protocol_version,
            JsonRequest::Choose { protocol_version, .. } => protocol_version,
        }
    }

    pub open spec fn id(&self) -> String {
        match *self {
            JsonRequest::Hello { request_id, .. } => request_id,
            JsonRequest::New { request_id, .. } => request_id,
            JsonRequest::State { request_id, .. } => request_id,
            JsonRequest::Choose { request_id, .. } => request_id,
        }
    }

    /// The protocol version the request names.
    pub fn protocol_version(&self) -> (r: u32)
        ensures
            r == self.version(),
    {
        match self {
            JsonRequest::Hello { protocol_version, .. } => *protocol_version,
            JsonRequest::New { protocol_version, .. } => *protocol_version,
            JsonRequest::State { protocol_version, .. } => *protocol_version,
            JsonRequest::Choose { protocol_version, .. } => *protocol_version,
        }
    }

    /// The client's ID for the request.
    pub fn request_id(&self) -> (r: &String)
        ensures
            *r == self.id(),
    {
        match self {
            JsonRequest::Hello { request_id, .. } => request_id,
            JsonRequest::New { request_id, .. } => request_id,
            JsonRequest::State { request_id, .. } => request_id,
            JsonRequest::Choose { request_id, .. } => request_id,
        }
    }
}

/// How a game stands.
#[derive(Debug, Clone, Copy, PartialEq, Eq, Structural)]
pub enum Outcome {
    InProgress,
    Winner,
    SharedVictory,
    Stalled,
}

/// An action offered to a client, by an opaque ID.
pub struct LegalAction {
    pub action_id: String,
    pub description: String,
}

/// A response of the JSON-lines protocol.
pub struct JsonResponse {
    pub protocol_version: u32,
    pub request_id: Option<String>,
    pub response_type: String,
    pub game_id: Option<String>,
    pub engine_version: String,
    pub state_revision: Option<u64>,
    pub turn: Option<u32>,
    pub state_hash: Option<String>,
    pub outcome: Option<Outcome>,
    pub winner: Option<String>,
    pub observation: Option<String>,
    pub legal_actions: Vec<LegalAction>,
    pub capabilities: Vec<String>,
    pub error: Option<String>,
}

/// An action issued for the current state, remembered until the state changes.
pub struct IssuedAction {
    pub action_id: String,
    pub faction: Faction,
    pub action: Action,
    pub turn: u32,
    pub state_hash: String,
}

/// The SHA-256 digest of a text's UTF-8 bytes, as lowercase hexadecimal.
pub uninterp spec fn sha256_hex(text: Seq<char>) -> Seq<char>;

/// Hashes the observation a client saw, with `sha2::Sha256`; the result is
/// the digest's lowercase hexadecimal form. Nothing about the digest itself
/// is stated.
#[verifier::external_body]
fn public_state_hash(observation: &str) -> (r: String)
    ensures
        r@ == sha256_hex(observation@),
{
    format!("{:x}", Sha256::digest(observation.as_bytes()))
}

/// The lowercase name of a faction.
pub open spec fn faction_name(f: Faction) -> Seq<char> {
    match f {
        Faction::Fellowship => "fellowship"@,
        Faction::Sauron => "sauron"@,
    }
}

/// How a game stands: won, shared, stalled (nobody can act) or in progress.
pub open spec fn outcome_of(g: Game) -> Outcome {
    if g.winner is Some {
        Outcome::Winner
    } else if g.shared_territory_victory {
        Outcome::SharedVictory
    } else if g.legal_for(Faction::Fellowship).len() == 0 && g.legal_for(Faction::Sauron).len() == 0 {
        Outcome::Stalled
    } else {
        Outcome::InProgress
    }
}

/// A game with a winner is reported won; one without a winner but with a
/// shared territorial victory is reported as a shared victory whatever
/// actions remain; an unfinished game is stalled exactly when neither faction
/// may act.
pub proof fn law_outcome_reports_the_result(g: Game)
    ensures
        g.winner is Some ==> outcome_of(g) == Outcome::Winner,
        g.winner is None && g.shared_territory_victory ==> outcome_of(g) == Outcome::SharedVictory,
        g.winner is None && !g.shared_territory_victory ==> (outcome_of(g) == Outcome::Stalled <==> (g.legal_for(
            Faction::Fellowship,
        ).len() == 0 && g.legal_for(Faction::Sauron).len() == 0)),
        g.winner is None && !g.shared_territory_victory && outcome_of(g) != Outcome::Stalled ==> outcome_of(g)
            == Outcome::InProgress,
{
}

/// How `game` stands, as a client is told.
pub fn outcome_for(game: &Game) -> (r: Outcome)
    requires
        game.wf(),
    ensures
        r == outcome_of(*game),
{
    let fellowship = game.legal_actions_for(Faction::Fellowship);
    let sauron = game.legal_actions_for(Faction::Sauron);
    if game.winner().is_some() {
        Outcome::Winner
    } else if game.is_shared_victory() {
        Outcome::SharedVictory
    } else if fellowship.len() == 0 && sauron.len() == 0 {
        Outcome::Stalled
    } else {
        Outcome::InProgress
    }
}

/// The ID of the `index`th action issued at revision `revision`.
pub open spec fn action_id_text(revision: u64, index: nat) -> Seq<char> {
    "r"@ + decimal(revision as nat) + "-a"@ + decimal(index)
}

/// A session of the JSON-lines protocol: one game at a time, its revision,
/// and the actions issued for the current state.
pub struct JsonlSession {
    pub game: Option<Game>,
    pub game_id: Option<String>,
    pub state_revision: u64,
    pub next_game_id: u64,
    pub issued_actions: Vec<IssuedAction>,
    pub engine_version: String,
}

impl JsonlSession {
    pub open spec fn wf(&self) -> bool {
        self.game matches Some(g) ==> g.wf()
    }

    /// Why a request naming `game_id` and `faction` is refused, if it is.
    pub open spec fn refusal(&self, game_id: Seq<char>, faction: Seq<char>) -> Option<Seq<char>> {
        if self.game is None {
            Some("start a game with a new request"@)
        } else if !(self.game_id is Some && self.game_id->0@ == game_id) {
            Some("gameId does not match the current game"@)
        } else if spec_parse_faction(faction) is None {
            Some("faction must be fellowship or sauron"@)
        } else {
            None
        }
    }

    /// A session with no game; responses name `engine_version`.
    pub fn new(engine_version: String) -> (r: JsonlSession)
        ensures
            r.wf(),
            r.game is None,
            r.state_revision == 0,
            r.next_game_id == 0,
            r.issued_actions@.len() == 0,
            r.engine_version == engine_version,
    {
        JsonlSession {
            game: None,
            game_id: None,
            state_revision: 0,
            next_game_id: 0,
            issued_actions: Vec::new(),
            engine_version,
        }
    }

    /// An error response that names no game.
    pub fn error(&self, request_id: Option<String>, error: String) -> (r: JsonResponse)
        ensures
            r.response_type@ == "error"@,
            r.error == Some(error),
            r.request_id == request_id,
            r.game_id is None,
            r.protocol_version == JSONL_PROTOCOL_VERSION,
    {
        JsonResponse {
            protocol_version: JSONL_PROTOCOL_VERSION,
            request_id,
            response_type: string_of("error"),
            game_id: None,
            engine_version: self.engine_version.clone(),
            state_revision: None,
            turn: None,
            state_hash: None,
            outcome: None,
            winner: None,
            observation: None,
            legal_actions: Vec::new(),
            capabilities: Vec::new(),
            error: Some(error),
        }
    }

    /// The same error, naming the current game.
    fn game_error(&self, request_id: String, error: &str) -> (r: JsonResponse)
        ensures
            r.response_type@ == "error"@,
            r.error matches Some(e) && e@ == error@,
            r.request_id == Some(request_id),
            r.game_id == self.game_id,
    {
        let mut response = self.error(Some(request_id), string_of(error));
        response.game_id = match &self.game_id {
            Some(id) => Some(id.clone()),
            None => None,
        };
        response
    }

    /// The faction a request may act for, or why it is refused.
    fn validate_game_and_faction(&self, game_id: &str, faction: &str) -> (r: Result<Faction, String>)
        ensures
            r matches Ok(f) ==> self.refusal(game_id@, faction@) is None && spec_parse_faction(faction@)
                == Some(f),
            r matches Err(e) ==> self.refusal(game_id@, faction@) == Some(e@),
    {
        if self.game.is_none() {
            return Err(string_of("start a game with a new request"));
        }
        let matches = match &self.game_id {
            Some(id) => crate::text::same_text(id.as_str(), game_id),
            None => false,
        };
        if !matches {
            return Err(string_of("gameId does not match the current game"));
        }
        match parse_faction(faction) {
            Some(f) => Ok(f),
            None => Err(string_of("faction must be fellowship or sauron")),
        }
    }
}

/// `r` answers a request with ID `request_id` from the session `before`,
/// which becomes `after`: a response of type `response_type` on the current
/// game, its revision and outcome, and, when `faction` is named, that
/// faction's view with the actions it may take, each issued under an ID of
/// the current revision (in order) on top of those issued before.
pub open spec fn answered(
    before: JsonlSession,
    after: JsonlSession,
    r: JsonResponse,
    request_id: String,
    response_type: Seq<char>,
    faction: Option<Faction>,
) -> bool {
    &&& r.response_type@ == response_type
    &&& r.request_id == Some(request_id)
    &&& r.game_id == before.game_id
    &&& r.state_revision == Some(before.state_revision)
    &&& ({
        let g = before.game->0;
        &&& r.turn == Some(g.turn)
        &&& r.outcome == Some(outcome_of(g))
        &&& (r.winner matches Some(w) ==> g.winner matches Some(f) && w@ == faction_name(f))
        &&& (r.winner is None <==> g.winner is None)
        &&& match faction {
            None => r.observation is None && r.state_hash is None && r.legal_actions@.len() == 0,
            Some(f) => {
                let actions = g.legal_for(f);
                let obs = observation_text(g, f);
                &&& r.observation matches Some(o) && o@ == obs
                &&& r.state_hash matches Some(h) && h@ == sha256_hex(obs)
                &&& r.legal_actions@.len() == actions.len()
                &&& forall|i: int| 0 <= i < actions.len() ==> {
                    &&& (#[trigger] r.legal_actions@[i]).action_id@ == action_id_text(before.state_revision, i as nat)
                    &&& r.legal_actions@[i].description@ == offered_description(actions[i])
                    &&& issued_lookup(after.issued_actions@, action_id_text(before.state_revision, i as nat))
                        matches Some(x) && x.action == actions[i] && x.faction == f && x.turn == g.turn
                        && x.state_hash@ == sha256_hex(obs)
                }
            },
        }
    })
    &&& after.issued_actions@.len() >= before.issued_actions@.len()
    &&& after.issued_actions@.subrange(0, before.issued_actions@.len() as int) == before.issued_actions@
    &&& forall|k: int| before.issued_actions@.len() <= k < after.issued_actions@.len() ==> (
        #[trigger] after.issued_actions@[k]).action_id@ == action_id_text(
        before.state_revision,
        (k - before.issued_actions@.len()) as nat,
    )
}

/// `m` is the session `s` once `action` was applied to its game: the game
/// is what the action makes of it, the revision advances (stopping at its
/// maximum), and every issued action is withdrawn.
pub open spec fn chosen(s: JsonlSession, action: Action, m: JsonlSession) -> bool {
    &&& m.game matches Some(g) && action_done(s.game->0, action, g)
    &&& m.state_revision == if s.state_revision < u64::MAX { s.state_revision + 1 } else { s.state_revision as int }
    &&& m.issued_actions@.len() == 0
    &&& m == JsonlSession { game: m.game, state_revision: m.state_revision, issued_actions: m.issued_actions, ..s }
}

/// The most recently issued action with ID `id`, if any.
pub open spec fn issued_lookup(issued: Seq<IssuedAction>, id: Seq<char>) -> Option<IssuedAction>
    decreases issued.len(),
{
    if issued.len() == 0 {
        None
    } else if issued.last().action_id@ == id {
        Some(issued.last())
    } else {
        issued_lookup(issued.drop_last(), id)
    }
}

/// The description of an action offered to a client.
pub open spec fn offered_description(a: Action) -> Seq<char> {
    action_text(a) + ". Immediate result: "@ + crate::game::render::result_text(a) + "."@
}

/// Why a `choose` request is refused before its action is tried, if it is.
pub open spec fn choose_refusal(
    session: JsonlSession,
    game_id: Seq<char>,
    faction: Seq<char>,
    revision: u64,
    turn: u32,
    hash: Seq<char>,
    action_id: Seq<char>,
) -> Option<Seq<char>> {
    match session.refusal(game_id, faction) {
        Some(e) => Some(e),
        None => if revision != session.state_revision {
            Some("stateRevision does not match current state"@)
        } else {
            match issued_lookup(session.issued_actions@, action_id) {
                None => Some("actionId was not issued for the current state"@),
                Some(issued) => if Some(issued.faction) != spec_parse_faction(faction) {
                    Some("actionId was not issued for this faction"@)
                } else if turn != issued.turn {
                    Some("turn does not match current state"@)
                } else if hash != issued.state_hash@ {
                    Some("stateHash does not match current state"@)
                } else {
                    None
                },
            }
        },
    }
}

impl JsonlSession {
    /// The most recently issued action with ID `id`.
    fn find_issued(&self, id: &str) -> (r: Option<usize>)
        ensures
            r matches Some(i) ==> i < self.issued_actions@.len() && issued_lookup(self.issued_actions@, id@)
                == Some(self.issued_actions@[i as int]),
            r is None ==> issued_lookup(self.issued_actions@, id@) is None,
    {
        let issued = &self.issued_actions;
        let mut k: usize = issued.len();
        proof {
            assert(issued@.subrange(0, k as int) =~= issued@);
        }
        while k > 0
            invariant
                k <= issued@.len(),
                issued@ == self.issued_actions@,
                issued_lookup(issued@, id@) == issued_lookup(issued@.subrange(0, k as int), id@),
            decreases k,
        {
            proof {
                assert(issued@.subrange(0, k as int).drop_last() =~= issued@.subrange(0, k - 1));
                assert(issued@.subrange(0, k as int).last() == issued@[k - 1]);
            }
            if crate::text::same_text(issued[k - 1].action_id.as_str(), id) {
                proof {
                    assert(issued_lookup(issued@.subrange(0, k as int), id@) == Some(issued@[k - 1]));
                }
                return Some(k - 1);
            }
            k = k - 1;
        }
        proof {
            assert(issued@.subrange(0, 0) =~= Seq::<IssuedAction>::empty());
        }
        None
    }

    /// The response for the current game, seen by `faction` when one is
    /// named; the actions it offers are issued for this state.
    #[verifier::rlimit(40)]
    fn response(&mut self, request_id: String, response_type: &str, faction: Option<Faction>) -> (r: JsonResponse)
        requires
            old(self).wf(),
            old(self).game is Some,
        ensures
            final(self).wf(),
            final(self).game == old(self).game,
            final(self).game_id == old(self).game_id,
            final(self).state_revision == old(self).state_revision,
            final(self).next_game_id == old(self).next_game_id,
            final(self).engine_version == old(self).engine_version,
            answered(*old(self), *final(self), r, request_id, response_type@, faction),
    {
        let ghost g0 = self.game->0;
        let ghost s0 = *self;
        let game = match &self.game {
            Some(g) => g,
            None => { return self.error(Some(request_id), string_of("no game")); },
        };
        let outcome = outcome_for(game);
        let turn = game.turn();
        let winner = match game.winner() {
            Some(Faction::Fellowship) => Some(string_of("fellowship")),
            Some(Faction::Sauron) => Some(string_of("sauron")),
            None => None,
        };
        let mut legal: Vec<LegalAction> = Vec::new();
        let mut observation: Option<String> = None;
        let mut state_hash: Option<String> = None;
        match faction {
            Some(f) => {
                let obs = game.render_observation_for(f);
                let hash = public_state_hash(obs.as_str());
                let actions = game.legal_actions_for(f);
                let ghost issued0 = self.issued_actions@;
                let mut i: usize = 0;
                while i < actions.len()
                    invariant
                        i <= actions@.len(),
                        actions@ == g0.legal_for(f),
                        hash@ == sha256_hex(observation_text(g0, f)),
                        legal@.len() == i,
                        self.issued_actions@.len() == issued0.len() + i,
                        forall|k: int| 0 <= k < issued0.len() ==> #[trigger] self.issued_actions@[k] == issued0[k],
                        forall|k: int| 0 <= k < i ==> {
                            &&& (#[trigger] legal@[k]).action_id@ == action_id_text(self.state_revision, k as nat)
                            &&& legal@[k].description@ == offered_description(actions@[k])
                        },
                        forall|k: int| 0 <= k < i ==> {
                            &&& (#[trigger] self.issued_actions@[issued0.len() + k]).action_id@ == action_id_text(self.state_revision, k as nat)
                            &&& self.issued_actions@[issued0.len() + k].action == actions@[k]
                            &&& self.issued_actions@[issued0.len() + k].faction == f
                            &&& self.issued_actions@[issued0.len() + k].turn == turn
                            &&& self.issued_actions@[issued0.len() + k].state_hash@ == hash@
                        },
                        self.game == Some(g0),
                        self.game_id == s0.game_id,
                        self.state_revision == s0.state_revision,
                        self.next_game_id == s0.next_game_id,
                        self.engine_version == s0.engine_version,
                        self.wf(),
                        turn == g0.turn,
                    decreases actions.len() - i,
                {
                    let mut id = string_of("r");
                    push_decimal(&mut id, self.state_revision);
                    push_str(&mut id, "-a");
                    push_decimal(&mut id, i as u64);
                    proof {
                        reveal_strlit("r");
                        reveal_strlit("-a");
                        assert(id@ =~= action_id_text(self.state_revision, i as nat));
                    }
                    let description = game_describe(&actions[i]);
                    let action = copy_action(&actions[i]);
                    self.issued_actions.push(IssuedAction {
                        action_id: id.clone(),
                        faction: f,
                        action,
                        turn,
                        state_hash: hash.clone(),
                    });
                    legal.push(LegalAction { action_id: id, description });
                    i = i + 1;
                }
                proof {
                    lemma_lookup_issued(issued0, self.issued_actions@, actions@, self.state_revision);
                    assert(self.issued_actions@.subrange(0, issued0.len() as int) =~= issued0);
                    assert forall|k: int| issued0.len() <= k < self.issued_actions@.len() implies (
                        #[trigger] self.issued_actions@[k]).action_id@ == action_id_text(
                        self.state_revision,
                        (k - issued0.len()) as nat,
                    ) by {
                        let j = k - issued0.len();
                        assert(self.issued_actions@[issued0.len() + j] == self.issued_actions@[k]);
                    }
                }
                observation = Some(obs);
                state_hash = Some(hash);
            },
            None => {
                proof {
                    assert(self.issued_actions@.subrange(0, self.issued_actions@.len() as int) =~= self.issued_actions@);
                }
            },
        }
        JsonResponse {
            protocol_version: JSONL_PROTOCOL_VERSION,
            request_id: Some(request_id),
            response_type: string_of(response_type),
            game_id: match &self.game_id {
                Some(id) => Some(id.clone()),
                None => None,
            },
            engine_version: self.engine_version.clone(),
            state_revision: Some(self.state_revision),
            turn: Some(turn),
            state_hash,
            outcome: Some(outcome),
            winner,
            observation,
            legal_actions: legal,
            capabilities: Vec::new(),
            error: None,
        }
    }
}

/// The description offered with an action.
fn game_describe(a: &Action) -> (r: String)
    ensures
        r@ == offered_description(*a),
{
    let mut s = a.text();
    push_str(&mut s, ". Immediate result: ");
    push_str(&mut s, crate::game::render::result_line(a).as_str());
    push_str(&mut s, ".");
    s
}

/// A copy of an action.
fn copy_action(a: &Action) -> (r: Action)
    ensures
        r == *a,
{
    match a {
        Action::TakeLandmark { id } => Action::TakeLandmark { id: id.clone() },
        Action::TakeLandmarkUsingAnySkill { id } => Action::TakeLandmarkUsingAnySkill { id: id.clone() },
        Action::TakeChapterCard { slot_id } => Action::TakeChapterCard { slot_id: *slot_id },
        Action::PlaySelectedCard => Action::PlaySelectedCard,
        Action::PlaySelectedCardNormally => Action::PlaySelectedCardNormally,
        Action::PlaySelectedCardUsingAnySkill => Action::PlaySelectedCardUsingAnySkill,
        Action::DiscardSelectedCard => Action::DiscardSelectedCard,
        Action::PlaceCardUnits { region } => Action::PlaceCardUnits { region: *region },
        Action::ResolveEmptyCardUnitPlacement => Action::ResolveEmptyCardUnitPlacement,
        Action::MoveCardUnit { from, to } => Action::MoveCardUnit { from: *from, to: *to },
        Action::RemoveCardEnemyUnit { region } => Action::RemoveCardEnemyUnit { region: *region },
        Action::ResolveUnavailableManeuver => Action::ResolveUnavailableManeuver,
        Action::PlaceQuestBonusUnit { region } => Action::PlaceQuestBonusUnit { region: *region },
        Action::RemoveQuestBonusFortress { region } => Action::RemoveQuestBonusFortress { region: *region },
        Action::DiscardOpponentGreyCard { card } => Action::DiscardOpponentGreyCard { card: *card },
        Action::PlayDiscardedCardForFree { card } => Action::PlayDiscardedCardForFree { card: *card },
        Action::ResolveAllianceTrigger { trigger } => Action::ResolveAllianceTrigger { trigger: *trigger },
        Action::ChooseAllianceRace { race } => Action::ChooseAllianceRace { race: *race },
        Action::TakeAllianceToken { token } => Action::TakeAllianceToken { token: *token },
        Action::ChooseEntManeuver { maneuver } => Action::ChooseEntManeuver { maneuver: *maneuver },
        Action::PlaceAllianceUnits { region } => Action::PlaceAllianceUnits { region: *region },
        Action::AcceptQuestBonus => Action::AcceptQuestBonus,
        Action::SkipQuestBonus => Action::SkipQuestBonus,
    }
}

/// After issuing a list of actions, each of their IDs finds its own action.
proof fn lemma_lookup_issued(before: Seq<IssuedAction>, after: Seq<IssuedAction>, actions: Seq<Action>, revision: u64)
    requires
        after.len() == before.len() + actions.len(),
        forall|k: int| 0 <= k < actions.len() ==> {
            &&& (#[trigger] after[before.len() + k]).action_id@ == action_id_text(revision, k as nat)
        },
    ensures
        forall|i: int| 0 <= i < actions.len() ==> #[trigger] issued_lookup(after, action_id_text(revision, i as nat))
            == Some(after[before.len() + i]),
{
    assert forall|i: int| 0 <= i < actions.len() implies #[trigger] issued_lookup(after, action_id_text(revision, i as nat))
        == Some(after[before.len() + i]) by {
        lemma_lookup_last(after, before.len() + i, action_id_text(revision, i as nat), before.len() as int, revision);
    }
}

proof fn lemma_lookup_last(issued: Seq<IssuedAction>, pos: int, id: Seq<char>, start: int, revision: u64)
    requires
        0 <= start <= pos < issued.len(),
        issued[pos].action_id@ == id,
        id == action_id_text(revision, (pos - start) as nat),
        forall|k: int| 0 <= k < issued.len() - start ==> (#[trigger] issued[start + k]).action_id@ == action_id_text(revision, k as nat),
    ensures
        issued_lookup(issued, id) == Some(issued[pos]),
    decreases issued.len(),
{
    if pos < issued.len() - 1 {
        let last_k = issued.len() - 1 - start;
        assert(issued[start + last_k].action_id@ == action_id_text(revision, last_k as nat));
        lemma_action_ids_distinct(revision, last_k as nat, (pos - start) as nat);
        assert(issued.last().action_id@ != id);
        let rest = issued.drop_last();
        assert forall|k: int| 0 <= k < rest.len() - start implies (#[trigger] rest[start + k]).action_id@ == action_id_text(revision, k as nat) by {
            assert(rest[start + k] == issued[start + k]);
        }
        lemma_lookup_last(rest, pos, id, start, revision);
    }
}

/// Different indices give different action IDs.
proof fn lemma_action_ids_distinct(revision: u64, a: nat, b: nat)
    requires
        a != b,
    ensures
        action_id_text(revision, a) != action_id_text(revision, b),
{
    let p = "r"@ + decimal(revision as nat) + "-a"@;
    assert(action_id_text(revision, a) == p + decimal(a));
    assert(action_id_text(revision, b) == p + decimal(b));
    if p + decimal(a) == p + decimal(b) {
        assert(decimal(a) =~= (p + decimal(a)).subrange(p.len() as int, (p + decimal(a)).len() as int));
        assert(decimal(b) =~= (p + decimal(b)).subrange(p.len() as int, (p + decimal(b)).len() as int));
        crate::text::lemma_decimal_injective(a, b);
    }
}

/// Whether `r` is an error response with message `e`.
pub open spec fn error_is(r: JsonResponse, e: Seq<char>) -> bool {
    r.response_type@ == "error"@ && match r.error {
        Some(m) => m@ == e,
        None => false,
    }
}

/// Whether `o` holds the text `t`.
pub open spec fn text_is(o: Option<String>, t: Seq<char>) -> bool {
    match o {
        Some(s) => s@ == t,
        None => false,
    }
}

/// The capabilities a `hello` response advertises.
pub open spec fn capability_names() -> Seq<Seq<char>> {
    seq![
        "hello"@,
        "new"@,
        "state"@,
        "choose"@,
        "state_revision"@,
        "turn"@,
        "state_hash"@,
        "opaque_action_ids"@,
    ]
}

/// The ID of the `n`th game of a session.
pub open spec fn game_id_text(n: u64) -> Seq<char> {
    "game-"@ + decimal(n as nat)
}

impl JsonlSession {
    /// Answers one request. A request of another protocol version, or one
    /// that fails validation, is answered with an error and changes nothing.
    pub fn handle(&mut self, request: JsonRequest) -> (r: JsonResponse)
        requires
            old(self).wf(),
        ensures
            final(self).wf(),
            final(self).engine_version == old(self).engine_version,
            request.version() != JSONL_PROTOCOL_VERSION ==> {
                &&& error_is(r, "unsupported protocolVersion "@ + decimal(request.version() as nat))
                &&& r.request_id == Some(request.id())
                &&& *final(self) == *old(self)
            },
            request.version() == JSONL_PROTOCOL_VERSION ==> match request {
                JsonRequest::Hello { request_id, .. } => {
                    &&& r.response_type@ == "hello"@
                    &&& r.request_id == Some(request_id)
                    &&& r.capabilities@.map_values(|c: String| c@) == capability_names()
                    &&& final(self).game == old(self).game
                    &&& final(self).state_revision == old(self).state_revision
                },
                JsonRequest::New { request_id, seed, .. } => {
                    let n = if old(self).next_game_id < u64::MAX { old(self).next_game_id + 1 } else {
                        old(self).next_game_id as int
                    };
                    &&& r.response_type@ == "new"@
                    &&& r.request_id == Some(request_id)
                    &&& final(self).next_game_id == n
                    &&& text_is(final(self).game_id, game_id_text(n as u64))
                    &&& new_game_with(final(self).game, match seed {
                        Some(v) => v as nat,
                        None => 0,
                    })
                    &&& final(self).state_revision == 0
                    &&& r.state_revision == Some(0u64)
                },
                JsonRequest::State { request_id, game_id, faction, .. } => match old(self).refusal(game_id@, faction@) {
                    Some(e) => error_is(r, e) && r.request_id == Some(request_id) && *final(self) == *old(self),
                    None => r.response_type@ == "state"@ && r.request_id == Some(request_id) && final(self).game
                        == old(self).game && final(self).state_revision == old(self).state_revision && text_is(
                        r.observation,
                        observation_text(old(self).game->0, spec_parse_faction(faction@)->0),
                    ),
                },
                JsonRequest::Choose { request_id, game_id, state_revision, turn, state_hash, faction, action_id, .. } => {
                    match choose_refusal(*old(self), game_id@, faction@, state_revision, turn, state_hash@, action_id@) {
                        Some(e) => {
                            &&& error_is(r, e)
                            &&& r.request_id == Some(request_id)
                            &&& *final(self) == *old(self)
                            &&& old(self).refusal(game_id@, faction@) is None ==> r.game_id == old(self).game_id
                        },
                        None => {
                            let issued = issued_lookup(old(self).issued_actions@, action_id@)->0;
                            let f = spec_parse_faction(faction@)->0;
                            if contains_action(old(self).game->0.legal_for(f), issued.action) {
                                exists|m: JsonlSession| {
                                    &&& #[trigger] chosen(*old(self), issued.action, m)
                                    &&& answered(m, *final(self), r, request_id, "choose"@, Some(f))
                                }
                            } else {
                                &&& error_is(
                                    r,
                                    "action rejected: "@ + error_text(GameError::IllegalAction(issued.action)),
                                )
                                &&& r.request_id == Some(request_id)
                                &&& r.game_id == old(self).game_id
                                &&& *final(self) == *old(self)
                            }
                        },
                    }
                },
            },
    {
        let version = request.protocol_version();
        if version != JSONL_PROTOCOL_VERSION {
            let id = request.request_id().clone();
            let mut message = string_of("unsupported protocolVersion ");
            push_decimal(&mut message, version as u64);
            return self.error(Some(id), message);
        }
        match request {
            JsonRequest::Hello { request_id, .. } => {
                let mut capabilities: Vec<String> = Vec::new();
                capabilities.push(string_of("hello"));
                capabilities.push(string_of("new"));
                capabilities.push(string_of("state"));
                capabilities.push(string_of("choose"));
                capabilities.push(string_of("state_revision"));
                capabilities.push(string_of("turn"));
                capabilities.push(string_of("state_hash"));
                capabilities.push(string_of("opaque_action_ids"));
                proof {
                    assert(capabilities@.map_values(|c: String| c@) =~= capability_names());
                }
                JsonResponse {
                    protocol_version: JSONL_PROTOCOL_VERSION,
                    request_id: Some(request_id),
                    response_type: string_of("hello"),
                    game_id: None,
                    engine_version: self.engine_version.clone(),
                    state_revision: None,
                    turn: None,
                    state_hash: None,
                    outcome: None,
                    winner: None,
                    observation: None,
                    legal_actions: Vec::new(),
                    capabilities,
                    error: None,
                }
            },
            JsonRequest::New { request_id, seed, .. } => {
                if self.next_game_id < u64::MAX {
                    self.next_game_id = self.next_game_id + 1;
                }
                let mut id = string_of("game-");
                push_decimal(&mut id, self.next_game_id);
                self.game_id = Some(id);
                let seed = match seed {
                    Some(v) => v,
                    None => 0,
                };
                self.game = Some(Game::new(seed));
                self.state_revision = 0;
                self.issued_actions = Vec::new();
                self.response(request_id, "new", None)
            },
            JsonRequest::State { request_id, game_id, faction, .. } => {
                match self.validate_game_and_faction(game_id.as_str(), faction.as_str()) {
                    Ok(f) => self.response(request_id, "state", Some(f)),
                    Err(e) => self.error(Some(request_id), e),
                }
            },
            JsonRequest::Choose { request_id, game_id, state_revision, turn, state_hash, faction, action_id, .. } => {
                let f = match self.validate_game_and_faction(game_id.as_str(), faction.as_str()) {
                    Ok(f) => f,
                    Err(e) => { return self.error(Some(request_id), e); },
                };
                if state_revision != self.state_revision {
                    return self.game_error(request_id, "stateRevision does not match current state");
                }
                let index = match self.find_issued(action_id.as_str()) {
                    Some(i) => i,
                    None => { return self.game_error(request_id, "actionId was not issued for the current state"); },
                };
                if self.issued_actions[index].faction != f {
                    return self.game_error(request_id, "actionId was not issued for this faction");
                }
                if turn != self.issued_actions[index].turn {
                    return self.game_error(request_id, "turn does not match current state");
                }
                if !crate::text::same_text(state_hash.as_str(), self.issued_actions[index].state_hash.as_str()) {
                    return self.game_error(request_id, "stateHash does not match current state");
                }
                let action = copy_action(&self.issued_actions[index].action);
                let ghost before = *self;
                let result = match &mut self.game {
                    Some(game) => game.apply_for(f, action),
                    None => { return self.game_error(request_id, "start a game with a new request"); },
                };
                match result {
                    Ok(()) => {},
                    Err(error) => {
                        let mut message = string_of("action rejected: ");
                        push_str(&mut message, error.text().as_str());
                        return self.game_error(request_id, message.as_str());
                    },
                }
                if self.state_revision < u64::MAX {
                    self.state_revision = self.state_revision + 1;
                }
                self.issued_actions = Vec::new();
                proof {
                    assert(chosen(before, action, *self));
                }
                self.response(request_id, "choose", Some(f))
            },
        }
    }
}
} // verus!
