use chess_uci::uci::{FloatOption, Uci, UciOutput, UciSettings};
use chess_uci::text::{parse_uint, split_whitespace, trim};

fn chars(s: &str) -> Vec<char> {
    s.chars().collect()
}

fn t(s: &str) -> Vec<char> {
    chars(s)
}

#[test]
fn new_settings() {
    let u = Uci::new();
    assert_eq!(
        u.get_settings(),
        UciSettings { simulations: 800, batch_size: 8, no_model: 1, reset: true, force_to_play: false, your_turn: false }
    );
}

#[test]
fn uci_and_isready() {
    let mut u = Uci::new();
    let r = u.lit_uci("uci");
    assert!(r.keep_going);
    assert_eq!(r.outputs, vec![UciOutput::Identify]);
    let r = u.lit_uci("  isready \n");
    assert_eq!(r.outputs, vec![UciOutput::WriteNoModel(1), UciOutput::ReadyOk]);
}

#[test]
fn integer_options() {
    let mut u = Uci::new();
    let r = u.lit_uci("setoption name Simulations value 1200");
    assert_eq!(r.outputs, vec![UciOutput::OptionUpdated(t("Simulations"), t("1200"))]);
    assert_eq!(u.get_settings().simulations, 1200);
    u.lit_uci("setoption name Numero_model value 3");
    assert_eq!(u.get_settings().no_model, 3);
    let r = u.lit_uci("isready");
    assert_eq!(r.outputs[0], UciOutput::WriteNoModel(3));
    u.lit_uci("setoption name Batch_size value +16");
    assert_eq!(u.get_settings().batch_size, 16);
    // out of range or not a number: unchanged, still reported
    let r = u.lit_uci("setoption name Numero_model value 256");
    assert_eq!(r.outputs, vec![UciOutput::OptionUpdated(t("Numero_model"), t("256"))]);
    assert_eq!(u.get_settings().no_model, 3);
    u.lit_uci("setoption name Simulations value -5");
    assert_eq!(u.get_settings().simulations, 1200);
}

#[test]
fn fractional_and_unknown_options() {
    let mut u = Uci::new();
    let r = u.lit_uci("setoption name PUCT_x10 value 25");
    assert_eq!(
        r.outputs,
        vec![UciOutput::SetFloatOption(FloatOption::PuctX10, t("25")), UciOutput::OptionUpdated(t("PUCT_x10"), t("25"))]
    );
    let r = u.lit_uci("setoption name Foo value 3");
    assert_eq!(r.outputs, vec![UciOutput::UnknownOption(t("Foo")), UciOutput::OptionUpdated(t("Foo"), t("3"))]);
    let r = u.lit_uci("setoption Simulations 3");
    assert_eq!(r.outputs, vec![UciOutput::OptionParseError]);
}

#[test]
fn position_startpos_moves() {
    let mut u = Uci::new();
    let r = u.lit_uci("position startpos");
    assert_eq!(r.outputs, vec![UciOutput::PositionUpdated(1)]);
    let r = u.lit_uci("position startpos moves e2e4 e7e5 g1f3");
    assert_eq!(r.outputs, vec![UciOutput::PositionUpdated(2)]);
    assert_eq!(u.position().fen(), "rnbqkbnr/pppp1ppp/8/4p3/4P3/5N2/PPPP1PPP/RNBQKB1R b KQkq - 1 2");
    // an illegal move is skipped
    let r = u.lit_uci("position startpos moves e2e5");
    assert_eq!(r.outputs, vec![UciOutput::PositionUpdated(1)]);
    // without startpos, the moves are played from the current position
    u.lit_uci("position startpos moves e2e4");
    let r = u.lit_uci("position moves e7e5");
    assert_eq!(r.outputs, vec![UciOutput::PositionUpdated(2)]);
    assert!(u.position().white_to_move());
    u.lit_uci("ucinewgame");
    assert_eq!(u.position().fen(), "rnbqkbnr/pppppppp/8/8/8/8/PPPPPPPP/RNBQKBNR w KQkq - 0 1");
}

#[test]
fn flags_and_quit() {
    let mut u = Uci::new();
    u.reset_done();
    assert!(!u.get_settings().reset);
    u.lit_uci("ucinewgame");
    assert!(u.get_settings().reset);
    u.lit_uci("stop");
    assert!(u.get_settings().force_to_play);
    u.reset_force_to_play();
    assert!(!u.get_settings().force_to_play);
    u.lit_uci("go wtime 1000");
    assert!(u.get_settings().your_turn);
    u.reset_your_turn();
    assert!(!u.get_settings().your_turn);
    let r = u.lit_uci("quit");
    assert!(!r.keep_going);
    let r = u.lit_uci("bonjour");
    assert!(r.keep_going && r.outputs.is_empty());
}

#[test]
fn text_helpers() {
    assert_eq!(trim(&chars(" \t ab c \u{3000}")), chars("ab c"));
    let w = split_whitespace(&chars("  e2e4  e7e5\tg1f3 "));
    assert_eq!(w, vec![chars("e2e4"), chars("e7e5"), chars("g1f3")]);
    assert_eq!(parse_uint(&chars("4294967295"), u32::MAX as u64), Some(4294967295));
    assert_eq!(parse_uint(&chars("4294967296"), u32::MAX as u64), None);
    assert_eq!(parse_uint(&chars("+"), 255), None);
    assert_eq!(parse_uint(&chars(""), 255), None);
    assert_eq!(parse_uint(&chars("1 2"), 255), None);
}
