//! The engine's side of the UCI protocol: reading a command line, updating
//! the settings and the position, and saying what to answer.
//!
//! The options whose value is a decimal fraction (PUCT, temperature, the
//! stochastic limit and the two weights) are not held here: the reply hands
//! their text to the caller, which reads and keeps them.

use vstd::prelude::*;
use crate::moves::{UciMove, chars_of};
use crate::position::{Position, fen_after_uci, fen_fullmoves, legal_in, start_fen_text};
use crate::text::{
    trim, trim_spec, starts_with, occurs_at, find, find_from, second_piece_exec, second_piece,
    first_piece_exec, first_piece, split_whitespace, words, slice_chars, parse_uint,
    parse_uint_spec,
};

verus! {

/// Options whose value is a decimal fraction.
#[derive(Clone, Copy, Debug, PartialEq, Eq, Structural)]
pub enum FloatOption {
    /// `PUCT_x10`, ten times the exploration constant.
    PuctX10,
    /// `Temperature_x10`, ten times the temperature.
    TemperatureX10,
    /// `Limite_stochastique`.
    LimiteStochastique,
    /// `Poids_material_x10`, ten times the weight of material.
    PoidsMaterialX10,
    /// `Poids_echecs_x10`, ten times the weight of checks.
    PoidsEchecsX10,
}

/// What to do or answer after a command, in order. `T` is the type of the
/// texts: characters in the reply, their sequence in contracts.
#[derive(Debug, PartialEq, Eq)]
pub enum UciOutput<T> {
    /// Present the engine and its options (`id`, `option` lines, `uciok`).
    Identify,
    /// Tell the network side which model to load.
    WriteNoModel(u8),
    /// Answer `readyok`.
    ReadyOk,
    /// Read this text as the new value of a fractional option.
    SetFloatOption(FloatOption, T),
    /// Report an unknown option name.
    UnknownOption(T),
    /// Report that an option (name, value) was set.
    OptionUpdated(T, T),
    /// Report a `setoption` line without a name or a value.
    OptionParseError,
    /// Report the position's move number.
    PositionUpdated(u32),
}

impl UciOutput<Vec<char>> {
    pub open spec fn view_out(self) -> UciOutput<Seq<char>> {
        match self {
            UciOutput::Identify => UciOutput::Identify,
            UciOutput::WriteNoModel(n) => UciOutput::WriteNoModel(n),
            UciOutput::ReadyOk => UciOutput::ReadyOk,
            UciOutput::SetFloatOption(o, v) => UciOutput::SetFloatOption(o, v@),
            UciOutput::UnknownOption(n) => UciOutput::UnknownOption(n@),
            UciOutput::OptionUpdated(n, v) => UciOutput::OptionUpdated(n@, v@),
            UciOutput::OptionParseError => UciOutput::OptionParseError,
            UciOutput::PositionUpdated(n) => UciOutput::PositionUpdated(n),
        }
    }
}

/// The reply to a command: whether to go on, and what to do or answer.
pub struct UciReply {
    pub keep_going: bool,
    pub outputs: Vec<UciOutput<Vec<char>>>,
}

impl UciReply {
    pub open spec fn outs(self) -> Seq<UciOutput<Seq<char>>> {
        self.outputs@.map_values(|o: UciOutput<Vec<char>>| o.view_out())
    }
}

/// The integer settings and the flags of the protocol.
#[derive(Clone, Copy, Debug, PartialEq, Eq, Structural)]
pub struct UciSettings {
    /// Number of simulations per move.
    pub simulations: u32,
    /// Largest batch sent to the network.
    pub batch_size: u16,
    /// Number of the network model.
    pub no_model: u8,
    /// A new game started, not yet taken into account.
    pub reset: bool,
    /// The GUI asked to play now, not yet taken into account.
    pub force_to_play: bool,
    /// The GUI asked the engine to move, not yet taken into account.
    pub your_turn: bool,
}

/// The protocol's state: settings, flags and the position being played.
pub struct Uci {
    simulations: u32,
    batch_size: u16,
    no_model: u8,
    reset: bool,
    pos: Position,
    start: Position,
    force_to_play: bool,
    your_turn: bool,
}

/// What a `setoption` line sets and answers, given its option's name and
/// value (both trimmed).
pub open spec fn option_spec(st: UciSettings, name: Seq<char>, value: Seq<char>) -> (
    UciSettings,
    Seq<UciOutput<Seq<char>>>,
) {
    let done = UciOutput::OptionUpdated(name, value);
    if name == "Simulations"@ {
        (
            match parse_uint_spec(value, u32::MAX as int) {
                Some(v) => UciSettings { simulations: v as u32, ..st },
                None => st,
            },
            seq![done],
        )
    } else if name == "Batch_size"@ {
        (
            match parse_uint_spec(value, u16::MAX as int) {
                Some(v) => UciSettings { batch_size: v as u16, ..st },
                None => st,
            },
            seq![done],
        )
    } else if name == "Numero_model"@ {
        (
            match parse_uint_spec(value, u8::MAX as int) {
                Some(v) => UciSettings { no_model: v as u8, ..st },
                None => st,
            },
            seq![done],
        )
    } else if name == "PUCT_x10"@ {
        (st, seq![UciOutput::SetFloatOption(FloatOption::PuctX10, value), done])
    } else if name == "Temperature_x10"@ {
        (st, seq![UciOutput::SetFloatOption(FloatOption::TemperatureX10, value), done])
    } else if name == "Limite_stochastique"@ {
        (st, seq![UciOutput::SetFloatOption(FloatOption::LimiteStochastique, value), done])
    } else if name == "Poids_material_x10"@ {
        (st, seq![UciOutput::SetFloatOption(FloatOption::PoidsMaterialX10, value), done])
    } else if name == "Poids_echecs_x10"@ {
        (st, seq![UciOutput::SetFloatOption(FloatOption::PoidsEchecsX10, value), done])
    } else {
        (st, seq![UciOutput::UnknownOption(name), done])
    }
}

/// What a `setoption` line sets and answers: the name is what follows
/// `name ` up to ` value`, the value what follows `value `.
pub open spec fn setoption_spec(st: UciSettings, line: Seq<char>) -> (
    UciSettings,
    Seq<UciOutput<Seq<char>>>,
) {
    match (second_piece(line, "name "@), second_piece(line, "value "@)) {
        (Some(n), Some(v)) => option_spec(st, trim_spec(first_piece(n, " value"@)), trim_spec(v)),
        _ => (st, seq![UciOutput::OptionParseError]),
    }
}

/// The moves that a `position` line lists after `moves `, those that read
/// as UCI moves, in order.
pub open spec fn listed_moves(line: Seq<char>) -> Seq<UciMove> {
    let i = find_from(line, "moves "@, 0);
    if i < 0 {
        Seq::empty()
    } else {
        parsed_words(words(line.subrange(i + 6, line.len() as int)))
    }
}

/// The position of `fen` after each of the moves in turn, a move that is not
/// legal where it comes skipped.
pub open spec fn play_all(fen: Seq<char>, moves: Seq<UciMove>) -> Seq<char>
    decreases moves.len(),
{
    if moves.len() == 0 {
        fen
    } else {
        let before = play_all(fen, moves.drop_last());
        if legal_in(before, moves.last()) {
            fen_after_uci(before, moves.last().text())->0
        } else {
            before
        }
    }
}

/// The position that a `position` line leaves, from position `fen` with
/// starting position `start`: the line's moves played from the starting
/// position where it says `startpos`, else from `fen`.
pub open spec fn position_line_spec(fen: Seq<char>, start: Seq<char>, line: Seq<char>) -> Seq<char> {
    let base = if find_from(line, "startpos"@, 0) >= 0 {
        start
    } else {
        fen
    };
    play_all(base, listed_moves(line))
}

/// The words that read as UCI moves, in order.
pub open spec fn parsed_words(ws: Seq<Seq<char>>) -> Seq<UciMove>
    decreases ws.len(),
{
    if ws.len() == 0 {
        Seq::empty()
    } else {
        let rest = parsed_words(ws.drop_last());
        match UciMove::parse_spec(ws.last()) {
            Some(m) => rest.push(m),
            None => rest,
        }
    }
}

fn eq_chars(a: &Vec<char>, b: &Vec<char>) -> (r: bool)
    ensures
        r == (a@ == b@),
{
    if a.len() != b.len() {
        return false;
    }
    let mut i: usize = 0;
    while i < a.len()
        invariant
            i <= a.len(),
            a.len() == b.len(),
            forall|j: int| 0 <= j < i ==> a@[j] == b@[j],
        decreases a.len() - i,
    {
        if a[i] != b[i] {
            return false;
        }
        i = i + 1;
    }
    assert(a@ =~= b@);
    true
}

/// The moves of a `position` line, as [`listed_moves`] says.
pub fn moves_of_position_line(ligne: &Vec<char>) -> (r: Vec<UciMove>)
    ensures
        r@ == listed_moves(ligne@),
        forall|k: int| 0 <= k < r@.len() ==> (#[trigger] r@[k]).wf(),
{
    let pat = chars_of("moves ");
    proof {
        reveal_strlit("moves ");
    }
    let mut out: Vec<UciMove> = Vec::new();
    match find(ligne, &pat, 0) {
        None => {},
        Some(idx) => {
            let rest = slice_chars(ligne, idx + 6, ligne.len());
            let ws = split_whitespace(&rest);
            let ghost wv = ws@.map_values(|w: Vec<char>| w@);
            let mut k: usize = 0;
            while k < ws.len()
                invariant
                    k <= ws.len(),
                    wv == ws@.map_values(|w: Vec<char>| w@),
                    out@ == parsed_words(wv.take(k as int)),
                    forall|q: int| 0 <= q < out@.len() ==> (#[trigger] out@[q]).wf(),
                decreases ws.len() - k,
            {
                assert(wv.take(k as int + 1).drop_last() == wv.take(k as int));
                assert(wv.take(k as int + 1).last() == ws@[k as int]@);
                if let Some(m) = UciMove::parse_chars(&ws[k]) {
                    out.push(m);
                }
                k = k + 1;
            }
            proof {
                assert(wv.take(ws.len() as int) == wv);
            }
        },
    }
    out
}

impl Uci {
    /// The settings and flags.
    pub closed spec fn settings(&self) -> UciSettings {
        UciSettings {
            simulations: self.simulations,
            batch_size: self.batch_size,
            no_model: self.no_model,
            reset: self.reset,
            force_to_play: self.force_to_play,
            your_turn: self.your_turn,
        }
    }

    /// The position being played, as FEN text.
    pub closed spec fn pos(&self) -> Seq<char> {
        self.pos@
    }

    /// The starting position, as FEN text, to which a new game goes back.
    pub closed spec fn start_pos(&self) -> Seq<char> {
        self.start@
    }

    /// The starting position kept is the standard one.
    #[verifier::type_invariant]
    spec fn keeps_standard_start(self) -> bool {
        self.start@ == start_fen_text()
    }

    /// A new protocol state: 800 simulations, batches of 8, model 1, a new
    /// game pending, the starting position, no request to play.
    pub fn new() -> (u: Self)
        ensures
            u.settings() == (UciSettings {
                simulations: 800,
                batch_size: 8,
                no_model: 1,
                reset: true,
                force_to_play: false,
                your_turn: false,
            }),
            u.start_pos() == start_fen_text(),
            u.pos() == start_fen_text(),
    {
        let start = Position::start();
        Uci {
            simulations: 800,
            batch_size: 8,
            no_model: 1,
            reset: true,
            pos: start.clone(),
            start,
            force_to_play: false,
            your_turn: false,
        }
    }

    /// The settings and flags.
    pub fn get_settings(&self) -> (s: UciSettings)
        ensures
            s == self.settings(),
    {
        UciSettings {
            simulations: self.simulations,
            batch_size: self.batch_size,
            no_model: self.no_model,
            reset: self.reset,
            force_to_play: self.force_to_play,
            your_turn: self.your_turn,
        }
    }

    /// The position being played.
    pub fn position(&self) -> (p: &Position)
        ensures
            p@ == self.pos(),
    {
        &self.pos
    }

    /// The new game has been taken into account.
    pub fn reset_done(&mut self)
        ensures
            final(self).settings() == (UciSettings { reset: false, ..old(self).settings() }),
            final(self).pos() == old(self).pos(),
            final(self).start_pos() == old(self).start_pos(),
    {
        proof {
            use_type_invariant(&*self);
        }
        self.reset = false;
    }

    /// The request to play now has been taken into account.
    pub fn reset_force_to_play(&mut self)
        ensures
            final(self).settings() == (UciSettings { force_to_play: false, ..old(self).settings() }),
            final(self).pos() == old(self).pos(),
            final(self).start_pos() == old(self).start_pos(),
    {
        proof {
            use_type_invariant(&*self);
        }
        self.force_to_play = false;
    }

    /// The request to move has been taken into account.
    pub fn reset_your_turn(&mut self)
        ensures
            final(self).settings() == (UciSettings { your_turn: false, ..old(self).settings() }),
            final(self).pos() == old(self).pos(),
            final(self).start_pos() == old(self).start_pos(),
    {
        proof {
            use_type_invariant(&*self);
        }
        self.your_turn = false;
    }

    /// Updates the position from a `position` line: back to the starting
    /// position when the line says `startpos`, then each move listed after
    /// `moves ` that is legal in turn is played. Returns the move number.
    fn update_position(&mut self, ligne: &Vec<char>) -> (n: u32)
        ensures
            final(self).settings() == old(self).settings(),
            final(self).start_pos() == old(self).start_pos(),
            final(self).pos() == position_line_spec(old(self).pos(), old(self).start_pos(), ligne@),
            n == fen_fullmoves(final(self).pos()),
            n >= 1,
    {
        proof {
            use_type_invariant(&*self);
        }
        let startpos = chars_of("startpos");
        proof {
            reveal_strlit("startpos");
        }
        if find(ligne, &startpos, 0).is_some() {
            self.pos = self.start.clone();
        }
        let ghost base = self.pos@;
        let moves = moves_of_position_line(ligne);
        let mut k: usize = 0;
        while k < moves.len()
            invariant
                k <= moves.len(),
                forall|q: int| 0 <= q < moves@.len() ==> (#[trigger] moves@[q]).wf(),
                self.settings() == old(self).settings(),
                self.start_pos() == old(self).start_pos(),
                self.start_pos() == start_fen_text(),
                self.pos() == play_all(base, moves@.take(k as int)),
            decreases moves.len() - k,
        {
            assert(moves@.take(k as int + 1).drop_last() == moves@.take(k as int));
            assert(moves@.take(k as int + 1).last() == moves@[k as int]);
            let text = moves[k].to_uci_string();
            if let Some(p) = self.pos.play(text.as_str()) {
                self.pos = p;
            }
            k = k + 1;
        }
        assert(moves@.take(moves.len() as int) == moves@);
        self.pos.fullmoves()
    }

    /// Reads one command line and says whether to go on and what to do or
    /// answer, as [`uci_step`] states.
    pub fn lit_uci(&mut self, ligne: &str) -> (r: UciReply)
        ensures
            uci_step(old(self).settings(), old(self).pos(), start_fen_text(), ligne@, final(self).settings(), final(self).pos(), r),
            final(self).start_pos() == old(self).start_pos(),
    {
        proof {
            use_type_invariant(&*self);
        }
        let line = chars_of(ligne);
        let t = trim(&line);
        let mut outputs: Vec<UciOutput<Vec<char>>> = Vec::new();
        if eq_chars(&t, &chars_of("uci")) {
            outputs.push(UciOutput::Identify);
            let r = UciReply { keep_going: true, outputs };
            assert(r.outs() =~= seq![UciOutput::<Seq<char>>::Identify]);
            return r;
        }
        if eq_chars(&t, &chars_of("isready")) {
            outputs.push(UciOutput::WriteNoModel(self.no_model));
            outputs.push(UciOutput::ReadyOk);
            let r = UciReply { keep_going: true, outputs };
            assert(r.outs() =~= seq![
                UciOutput::<Seq<char>>::WriteNoModel(old(self).settings().no_model),
                UciOutput::<Seq<char>>::ReadyOk,
            ]);
            return r;
        }
        if eq_chars(&t, &chars_of("ucinewgame")) {
            self.pos = self.start.clone();
            self.reset = true;
            return UciReply { keep_going: true, outputs };
        }
        if eq_chars(&t, &chars_of("stop")) {
            self.force_to_play = true;
            return UciReply { keep_going: true, outputs };
        }
        if eq_chars(&t, &chars_of("quit")) {
            return UciReply { keep_going: false, outputs };
        }
        let ghost st0 = self.settings();
        assert(outputs@.map_values(|o: UciOutput<Vec<char>>| o.view_out()) =~= Seq::<UciOutput<Seq<char>>>::empty());
        let is_set = starts_with(&line, &chars_of("setoption"));
        if is_set {
            self.setoption(&line, &mut outputs);
        }
        let ghost p1 = self.pos@;
        let ghost o1 = outputs@.map_values(|o: UciOutput<Vec<char>>| o.view_out());
        proof {
            if is_set {
                assert(o1 =~= setoption_spec(st0, line@).1);
            } else {
                assert(o1 =~= Seq::<UciOutput<Seq<char>>>::empty());
            }
        }
        if starts_with(&line, &chars_of("position")) {
            let n = self.update_position(&line);
            outputs.push(UciOutput::PositionUpdated(n));
            proof {
                let now = outputs@.map_values(|o: UciOutput<Vec<char>>| o.view_out());
                assert(now.take(o1.len() as int) =~= o1);
                assert(now.last() == UciOutput::<Seq<char>>::PositionUpdated(n));
            }
        }
        let ghost p2 = self.pos@;
        if starts_with(&line, &chars_of("go")) {
            self.your_turn = true;
        }
        UciReply { keep_going: true, outputs }
    }

    /// Handles a `setoption` line, appending its answers.
    fn setoption(&mut self, line: &Vec<char>, outputs: &mut Vec<UciOutput<Vec<char>>>)
        ensures
            final(self).settings() == setoption_spec(old(self).settings(), line@).0,
            final(self).pos() == old(self).pos(),
            final(self).start_pos() == old(self).start_pos(),
            final(outputs)@.map_values(|o: UciOutput<Vec<char>>| o.view_out()) == old(outputs)@.map_values(
                |o: UciOutput<Vec<char>>| o.view_out(),
            ) + setoption_spec(old(self).settings(), line@).1,
    {
        proof {
            use_type_invariant(&*self);
        }
        let name_pat = chars_of("name ");
        let value_pat = chars_of("value ");
        let sep = chars_of(" value");
        proof {
            reveal_strlit("name ");
            reveal_strlit("value ");
            reveal_strlit(" value");
        }
        let name_part = second_piece_exec(line, &name_pat);
        let value_part = second_piece_exec(line, &value_pat);
        let ghost before = outputs@.map_values(|o: UciOutput<Vec<char>>| o.view_out());
        match (name_part, value_part) {
            (Some(n), Some(v)) => {
                let name = trim(&first_piece_exec(&n, &sep));
                let value = trim(&v);
                self.set_option(name, value, outputs);
            },
            _ => {
                outputs.push(UciOutput::OptionParseError);
                proof {
                    assert(outputs@.map_values(|o: UciOutput<Vec<char>>| o.view_out()) =~= before.push(
                        UciOutput::OptionParseError,
                    ));
                }
            },
        }
    }

    /// Sets an option from its name and value, appending the answers.
    fn set_option(&mut self, name: Vec<char>, value: Vec<char>, outputs: &mut Vec<UciOutput<Vec<char>>>)
        ensures
            final(self).settings() == option_spec(old(self).settings(), name@, value@).0,
            final(self).pos() == old(self).pos(),
            final(self).start_pos() == old(self).start_pos(),
            final(outputs)@.map_values(|o: UciOutput<Vec<char>>| o.view_out()) == old(outputs)@.map_values(
                |o: UciOutput<Vec<char>>| o.view_out(),
            ) + option_spec(old(self).settings(), name@, value@).1,
    {
        proof {
            use_type_invariant(&*self);
        }
        let ghost before = outputs@.map_values(|o: UciOutput<Vec<char>>| o.view_out());
        let ghost spec_out = option_spec(self.settings(), name@, value@);
        let mut float_option: Option<FloatOption> = None;
        let mut known = true;
        if eq_chars(&name, &chars_of("Simulations")) {
            if let Some(v) = parse_uint(&value, 0xffff_ffff) {
                self.simulations = v as u32;
            }
        } else if eq_chars(&name, &chars_of("Batch_size")) {
            if let Some(v) = parse_uint(&value, 0xffff) {
                self.batch_size = v as u16;
            }
        } else if eq_chars(&name, &chars_of("Numero_model")) {
            if let Some(v) = parse_uint(&value, 0xff) {
                self.no_model = v as u8;
            }
        } else if eq_chars(&name, &chars_of("PUCT_x10")) {
            float_option = Some(FloatOption::PuctX10);
        } else if eq_chars(&name, &chars_of("Temperature_x10")) {
            float_option = Some(FloatOption::TemperatureX10);
        } else if eq_chars(&name, &chars_of("Limite_stochastique")) {
            float_option = Some(FloatOption::LimiteStochastique);
        } else if eq_chars(&name, &chars_of("Poids_material_x10")) {
            float_option = Some(FloatOption::PoidsMaterialX10);
        } else if eq_chars(&name, &chars_of("Poids_echecs_x10")) {
            float_option = Some(FloatOption::PoidsEchecsX10);
        } else {
            known = false;
        }
        match float_option {
            Some(o) => {
                outputs.push(UciOutput::SetFloatOption(o, copy_chars(&value)));
            },
            None => {
                if !known {
                    outputs.push(UciOutput::UnknownOption(copy_chars(&name)));
                }
            },
        }
        outputs.push(UciOutput::OptionUpdated(name, value));
        proof {
            assert(outputs@.map_values(|o: UciOutput<Vec<char>>| o.view_out()) =~= before + spec_out.1);
        }
    }
}

/// A copy of a text.
fn copy_chars(v: &Vec<char>) -> (r: Vec<char>)
    ensures
        r@ == v@,
{
    slice_chars(v, 0, v.len())
}

/// What a command line does, from settings `st` to settings `st2`, with
/// reply `r`: a one-word command (after trimming) does its one thing; any
/// other line is read as a `setoption`, a `position` and a `go` command in
/// turn, as far as it starts with each. The position goes from `p` to `p2`;
/// `start` is the starting position.
pub open spec fn uci_step(
    st: UciSettings,
    p: Seq<char>,
    start: Seq<char>,
    line: Seq<char>,
    st2: UciSettings,
    p2: Seq<char>,
    r: UciReply,
) -> bool {
    let t = trim_spec(line);
    if t == "uci"@ {
        st2 == st && p2 == p && r.keep_going && r.outs() == seq![UciOutput::<Seq<char>>::Identify]
    } else if t == "isready"@ {
        st2 == st && p2 == p && r.keep_going && r.outs() == seq![
            UciOutput::<Seq<char>>::WriteNoModel(st.no_model),
            UciOutput::<Seq<char>>::ReadyOk,
        ]
    } else if t == "ucinewgame"@ {
        st2 == (UciSettings { reset: true, ..st }) && p2 == start && r.keep_going && r.outs().len() == 0
    } else if t == "stop"@ {
        st2 == (UciSettings { force_to_play: true, ..st }) && p2 == p && r.keep_going && r.outs().len() == 0
    } else if t == "quit"@ {
        st2 == st && p2 == p && !r.keep_going && r.outs().len() == 0
    } else {
        let is_set = occurs_at(line, "setoption"@, 0);
        let is_pos = occurs_at(line, "position"@, 0);
        let is_go = occurs_at(line, "go"@, 0);
        let (st1, o1) = if is_set {
            setoption_spec(st, line)
        } else {
            (st, Seq::empty())
        };
        &&& r.keep_going
        &&& st2 == (if is_go { UciSettings { your_turn: true, ..st1 } } else { st1 })
        &&& p2 == (if is_pos { position_line_spec(p, start, line) } else { p })
        &&& if is_pos {
            &&& r.outs().len() == o1.len() + 1
            &&& r.outs().take(o1.len() as int) == o1
            &&& r.outs().last() == UciOutput::<Seq<char>>::PositionUpdated(fen_fullmoves(p2))
        } else {
            r.outs() == o1
        }
    }
}

/// Law: `setoption` routes each option to the setting of its own name.
/// The five fractional options are handed on, each as its own option, with
/// the value's text; `Simulations`, `Batch_size` and `Numero_model` set the
/// number of simulations, the batch size and the model number where the
/// value reads as a number that fits (at most 4294967295, 65535 and 255),
/// and leave everything else as it was. Each is reported as updated.
pub proof fn law_option_routing(st: UciSettings, value: Seq<char>)
    ensures
        option_spec(st, "PUCT_x10"@, value) == (st, seq![
            UciOutput::SetFloatOption(FloatOption::PuctX10, value),
            UciOutput::OptionUpdated("PUCT_x10"@, value),
        ]),
        option_spec(st, "Temperature_x10"@, value) == (st, seq![
            UciOutput::SetFloatOption(FloatOption::TemperatureX10, value),
            UciOutput::OptionUpdated("Temperature_x10"@, value),
        ]),
        option_spec(st, "Limite_stochastique"@, value) == (st, seq![
            UciOutput::SetFloatOption(FloatOption::LimiteStochastique, value),
            UciOutput::OptionUpdated("Limite_stochastique"@, value),
        ]),
        option_spec(st, "Poids_material_x10"@, value) == (st, seq![
            UciOutput::SetFloatOption(FloatOption::PoidsMaterialX10, value),
            UciOutput::OptionUpdated("Poids_material_x10"@, value),
        ]),
        option_spec(st, "Poids_echecs_x10"@, value) == (st, seq![
            UciOutput::SetFloatOption(FloatOption::PoidsEchecsX10, value),
            UciOutput::OptionUpdated("Poids_echecs_x10"@, value),
        ]),
        option_spec(st, "Simulations"@, value) == (
            UciSettings {
                simulations: match parse_uint_spec(value, 4294967295) {
                    Some(v) => v as u32,
                    None => st.simulations,
                },
                ..st
            },
            seq![UciOutput::<Seq<char>>::OptionUpdated("Simulations"@, value)],
        ),
        option_spec(st, "Batch_size"@, value) == (
            UciSettings {
                batch_size: match parse_uint_spec(value, 65535) {
                    Some(v) => v as u16,
                    None => st.batch_size,
                },
                ..st
            },
            seq![UciOutput::<Seq<char>>::OptionUpdated("Batch_size"@, value)],
        ),
        option_spec(st, "Numero_model"@, value) == (
            UciSettings {
                no_model: match parse_uint_spec(value, 255) {
                    Some(v) => v as u8,
                    None => st.no_model,
                },
                ..st
            },
            seq![UciOutput::<Seq<char>>::OptionUpdated("Numero_model"@, value)],
        ),
{
    reveal_strlit("Simulations");
    reveal_strlit("Batch_size");
    reveal_strlit("Numero_model");
    reveal_strlit("PUCT_x10");
    reveal_strlit("Temperature_x10");
    reveal_strlit("Limite_stochastique");
    reveal_strlit("Poids_material_x10");
    reveal_strlit("Poids_echecs_x10");
    assert("Simulations"@.len() == 11);
    assert("Batch_size"@.len() == 10);
    assert("Numero_model"@.len() == 12);
    assert("PUCT_x10"@.len() == 8);
    assert("Temperature_x10"@.len() == 15);
    assert("Limite_stochastique"@.len() == 19);
    assert("Poids_material_x10"@.len() == 18);
    assert("Poids_echecs_x10"@.len() == 16);
    assert(option_spec(st, "PUCT_x10"@, value).1 =~= seq![
        UciOutput::SetFloatOption(FloatOption::PuctX10, value),
        UciOutput::OptionUpdated("PUCT_x10"@, value),
    ]);
    assert(option_spec(st, "Temperature_x10"@, value).1 =~= seq![
        UciOutput::SetFloatOption(FloatOption::TemperatureX10, value),
        UciOutput::OptionUpdated("Temperature_x10"@, value),
    ]);
    assert(option_spec(st, "Limite_stochastique"@, value).1 =~= seq![
        UciOutput::SetFloatOption(FloatOption::LimiteStochastique, value),
        UciOutput::OptionUpdated("Limite_stochastique"@, value),
    ]);
    assert(option_spec(st, "Poids_material_x10"@, value).1 =~= seq![
        UciOutput::SetFloatOption(FloatOption::PoidsMaterialX10, value),
        UciOutput::OptionUpdated("Poids_material_x10"@, value),
    ]);
    assert(option_spec(st, "Poids_echecs_x10"@, value).1 =~= seq![
        UciOutput::SetFloatOption(FloatOption::PoidsEchecsX10, value),
        UciOutput::OptionUpdated("Poids_echecs_x10"@, value),
    ]);
    assert(option_spec(st, "Simulations"@, value).1 =~= seq![UciOutput::<Seq<char>>::OptionUpdated("Simulations"@, value)]);
    assert(option_spec(st, "Batch_size"@, value).1 =~= seq![UciOutput::<Seq<char>>::OptionUpdated("Batch_size"@, value)]);
    assert(option_spec(st, "Numero_model"@, value).1 =~= seq![UciOutput::<Seq<char>>::OptionUpdated("Numero_model"@, value)]);
}

} // verus!
