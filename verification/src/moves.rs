//! Pieces, squares and moves in UCI notation.
//!
//! A square is a number `0..64`: `file + 8 * rank`, with `a1 == 0`,
//! `h1 == 7` and `h8 == 63`.

use vstd::prelude::*;

verus! {

/// Kinds of pieces.
#[derive(Clone, Copy, Debug, PartialEq, Eq, Structural)]
pub enum Role {
    Pawn,
    Knight,
    Bishop,
    Rook,
    Queen,
    King,
}

/// A move as UCI writes it: `e2e4`, `a7a8q`, `Q@f7` or `0000`.
#[derive(Clone, Copy, Debug, PartialEq, Eq, Structural)]
pub enum UciMove {
    Normal { from: u8, to: u8, promotion: Option<Role> },
    Put { role: Role, to: u8 },
    Null,
}

impl Role {
    /// Lower-case letter of the role, as in a promotion.
    pub open spec fn lower(self) -> char {
        match self {
            Role::Pawn => 'p',
            Role::Knight => 'n',
            Role::Bishop => 'b',
            Role::Rook => 'r',
            Role::Queen => 'q',
            Role::King => 'k',
        }
    }

    /// Upper-case letter of the role, as in a drop.
    pub open spec fn upper(self) -> char {
        match self {
            Role::Pawn => 'P',
            Role::Knight => 'N',
            Role::Bishop => 'B',
            Role::Rook => 'R',
            Role::Queen => 'Q',
            Role::King => 'K',
        }
    }

    /// Role named by a letter, in either case.
    pub open spec fn of_char(c: char) -> Option<Role> {
        if c == 'P' || c == 'p' {
            Some(Role::Pawn)
        } else if c == 'N' || c == 'n' {
            Some(Role::Knight)
        } else if c == 'B' || c == 'b' {
            Some(Role::Bishop)
        } else if c == 'R' || c == 'r' {
            Some(Role::Rook)
        } else if c == 'Q' || c == 'q' {
            Some(Role::Queen)
        } else if c == 'K' || c == 'k' {
            Some(Role::King)
        } else {
            None
        }
    }
}

/// Letter of a file `0..8`.
pub open spec fn file_char(f: int) -> char {
    (97 + f) as char
}

/// Digit of a rank `0..8`.
pub open spec fn rank_char(r: int) -> char {
    (49 + r) as char
}

/// The two characters of a square.
pub open spec fn square_text(sq: u8) -> Seq<char> {
    seq![file_char((sq % 8) as int), rank_char((sq / 8) as int)]
}

/// The square named by a file letter and a rank digit.
pub open spec fn square_of(f: char, r: char) -> Option<u8> {
    if 'a' <= f <= 'h' && '1' <= r <= '8' {
        Some(((f as int - 97) + 8 * (r as int - 49)) as u8)
    } else {
        None
    }
}

impl UciMove {
    /// Its squares lie on the board.
    pub open spec fn wf(self) -> bool {
        match self {
            UciMove::Normal { from, to, .. } => from < 64 && to < 64,
            UciMove::Put { to, .. } => to < 64,
            UciMove::Null => true,
        }
    }

    /// The UCI text of the move.
    pub open spec fn text(self) -> Seq<char> {
        match self {
            UciMove::Normal { from, to, promotion } => square_text(from) + square_text(to) + match promotion {
                Some(r) => seq![r.lower()],
                None => Seq::<char>::empty(),
            },
            UciMove::Put { role, to } => seq![role.upper(), '@'] + square_text(to),
            UciMove::Null => seq!['0', '0', '0', '0'],
        }
    }

    /// The move that a UCI text names, if it names one.
    pub open spec fn parse_spec(s: Seq<char>) -> Option<UciMove> {
        if s.len() == 4 {
            if s[0] == '0' && s[1] == '0' && s[2] == '0' && s[3] == '0' {
                Some(UciMove::Null)
            } else if s[1] == '@' {
                match (Role::of_char(s[0]), square_of(s[2], s[3])) {
                    (Some(role), Some(to)) => Some(UciMove::Put { role, to }),
                    _ => None,
                }
            } else {
                match (square_of(s[0], s[1]), square_of(s[2], s[3])) {
                    (Some(from), Some(to)) => Some(UciMove::Normal { from, to, promotion: None }),
                    _ => None,
                }
            }
        } else if s.len() == 5 {
            match (square_of(s[0], s[1]), square_of(s[2], s[3]), Role::of_char(s[4])) {
                (Some(from), Some(to), Some(p)) => Some(
                    UciMove::Normal { from, to, promotion: Some(p) },
                ),
                _ => None,
            }
        } else {
            None
        }
    }
}

// ---------------------------------------------------------------------------
// Reading and writing UCI text
// ---------------------------------------------------------------------------

/// The characters of a string.
pub fn chars_of(s: &str) -> (v: Vec<char>)
    ensures
        v@ == s@,
{
    let n = s.unicode_len();
    let mut v: Vec<char> = Vec::new();
    let mut i: usize = 0;
    while i < n
        invariant
            n == s@.len(),
            i <= n,
            v@ == s@.subrange(0, i as int),
        decreases n - i,
    {
        v.push(s.get_char(i));
        i = i + 1;
    }
    v
}

fn square_from_chars(f: char, r: char) -> (sq: Option<u8>)
    ensures
        sq == square_of(f, r),
{
    if 'a' <= f && f <= 'h' && '1' <= r && r <= '8' {
        Some(((f as u32 - 97) + 8 * (r as u32 - 49)) as u8)
    } else {
        None
    }
}

fn role_from_char(c: char) -> (r: Option<Role>)
    ensures
        r == Role::of_char(c),
{
    if c == 'P' || c == 'p' {
        Some(Role::Pawn)
    } else if c == 'N' || c == 'n' {
        Some(Role::Knight)
    } else if c == 'B' || c == 'b' {
        Some(Role::Bishop)
    } else if c == 'R' || c == 'r' {
        Some(Role::Rook)
    } else if c == 'Q' || c == 'q' {
        Some(Role::Queen)
    } else if c == 'K' || c == 'k' {
        Some(Role::King)
    } else {
        None
    }
}

impl UciMove {
    /// The move named by UCI text given as characters.
    pub fn parse_chars(s: &Vec<char>) -> (r: Option<UciMove>)
        ensures
            r == UciMove::parse_spec(s@),
            r matches Some(m) ==> m.wf(),
    {
        if s.len() == 4 {
            if s[0] == '0' && s[1] == '0' && s[2] == '0' && s[3] == '0' {
                Some(UciMove::Null)
            } else if s[1] == '@' {
                match (role_from_char(s[0]), square_from_chars(s[2], s[3])) {
                    (Some(role), Some(to)) => Some(UciMove::Put { role, to }),
                    _ => None,
                }
            } else {
                match (square_from_chars(s[0], s[1]), square_from_chars(s[2], s[3])) {
                    (Some(from), Some(to)) => Some(UciMove::Normal { from, to, promotion: None }),
                    _ => None,
                }
            }
        } else if s.len() == 5 {
            match (
                square_from_chars(s[0], s[1]),
                square_from_chars(s[2], s[3]),
                role_from_char(s[4]),
            ) {
                (Some(from), Some(to), Some(p)) => Some(
                    UciMove::Normal { from, to, promotion: Some(p) },
                ),
                _ => None,
            }
        } else {
            None
        }
    }

    /// The move named by UCI text, such as `e2e4`, `a7a8q`, `Q@f7` or `0000`.
    pub fn parse(s: &str) -> (r: Option<UciMove>)
        ensures
            r == UciMove::parse_spec(s@),
            r matches Some(m) ==> m.wf(),
    {
        let v = chars_of(s);
        UciMove::parse_chars(&v)
    }

    /// The UCI text of the move.
    pub fn to_uci_string(&self) -> (r: String)
        requires
            self.wf(),
        ensures
            r@ == self.text(),
    {
        let mut out = String::new();
        match self {
            UciMove::Normal { from, to, promotion } => {
                push_square(&mut out, *from);
                push_square(&mut out, *to);
                if let Some(p) = promotion {
                    out.append(lower_str(*p));
                }
            },
            UciMove::Put { role, to } => {
                out.append(upper_str(*role));
                out.append(at_str());
                push_square(&mut out, *to);
            },
            UciMove::Null => {
                out.append(null_str());
            },
        }
        out
    }
}

fn push_square(out: &mut String, sq: u8)
    requires
        sq < 64,
    ensures
        final(out)@ == old(out)@ + square_text(sq),
{
    out.append(file_str(sq % 8));
    out.append(rank_str(sq / 8));
}

fn file_str(f: u8) -> (s: &'static str)
    requires
        f < 8,
    ensures
        s@ == seq![file_char(f as int)],
{
    if f == 0 {
        proof { reveal_strlit("a"); }
        "a"
    } else if f == 1 {
        proof { reveal_strlit("b"); }
        "b"
    } else if f == 2 {
        proof { reveal_strlit("c"); }
        "c"
    } else if f == 3 {
        proof { reveal_strlit("d"); }
        "d"
    } else if f == 4 {
        proof { reveal_strlit("e"); }
        "e"
    } else if f == 5 {
        proof { reveal_strlit("f"); }
        "f"
    } else if f == 6 {
        proof { reveal_strlit("g"); }
        "g"
    } else {
        proof { reveal_strlit("h"); }
        "h"
    }
}

fn rank_str(r: u8) -> (s: &'static str)
    requires
        r < 8,
    ensures
        s@ == seq![rank_char(r as int)],
{
    if r == 0 {
        proof { reveal_strlit("1"); }
        "1"
    } else if r == 1 {
        proof { reveal_strlit("2"); }
        "2"
    } else if r == 2 {
        proof { reveal_strlit("3"); }
        "3"
    } else if r == 3 {
        proof { reveal_strlit("4"); }
        "4"
    } else if r == 4 {
        proof { reveal_strlit("5"); }
        "5"
    } else if r == 5 {
        proof { reveal_strlit("6"); }
        "6"
    } else if r == 6 {
        proof { reveal_strlit("7"); }
        "7"
    } else {
        proof { reveal_strlit("8"); }
        "8"
    }
}

fn lower_str(r: Role) -> (s: &'static str)
    ensures
        s@ == seq![r.lower()],
{
    match r {
        Role::Pawn => {
            proof { reveal_strlit("p"); }
            "p"
        },
        Role::Knight => {
            proof { reveal_strlit("n"); }
            "n"
        },
        Role::Bishop => {
            proof { reveal_strlit("b"); }
            "b"
        },
        Role::Rook => {
            proof { reveal_strlit("r"); }
            "r"
        },
        Role::Queen => {
            proof { reveal_strlit("q"); }
            "q"
        },
        Role::King => {
            proof { reveal_strlit("k"); }
            "k"
        },
    }
}

fn upper_str(r: Role) -> (s: &'static str)
    ensures
        s@ == seq![r.upper()],
{
    match r {
        Role::Pawn => {
            proof { reveal_strlit("P"); }
            "P"
        },
        Role::Knight => {
            proof { reveal_strlit("N"); }
            "N"
        },
        Role::Bishop => {
            proof { reveal_strlit("B"); }
            "B"
        },
        Role::Rook => {
            proof { reveal_strlit("R"); }
            "R"
        },
        Role::Queen => {
            proof { reveal_strlit("Q"); }
            "Q"
        },
        Role::King => {
            proof { reveal_strlit("K"); }
            "K"
        },
    }
}

fn at_str() -> (s: &'static str)
    ensures
        s@ == seq!['@'],
{
    proof { reveal_strlit("@"); }
    "@"
}

fn null_str() -> (s: &'static str)
    ensures
        s@ == seq!['0', '0', '0', '0'],
{
    proof { reveal_strlit("0000"); }
    "0000"
}

/// Law: the UCI text of a move reads back as the same move.
pub proof fn law_text_parses_back(m: UciMove)
    requires
        m.wf(),
    ensures
        UciMove::parse_spec(m.text()) == Some(m),
{
    let t = m.text();
    match m {
        UciMove::Normal { from, to, promotion } => {
            assert(square_of(t[0], t[1]) == Some(from));
            assert(square_of(t[2], t[3]) == Some(to));
        },
        UciMove::Put { role, to } => {
            assert(square_of(t[2], t[3]) == Some(to));
        },
        UciMove::Null => {},
    }
}

/// Law: how UCI names squares and promotions. Square `sq` is written as
/// its file letter `a` to `h` (`sq % 8`) then its rank digit `1` to `8`
/// (`sq / 8`); a move is its origin square then its target square, then
/// `n`, `b`, `r` or `q` for a promotion to a knight, a bishop, a rook or a
/// queen, and reads back as that move.
pub proof fn law_uci_text_layout(from: u8, to: u8)
    requires
        from < 64,
        to < 64,
    ensures
        square_text(from).len() == 2,
        square_text(from)[0] as int == 97 + from % 8,
        square_text(from)[1] as int == 49 + from / 8,
        UciMove::parse_spec(square_text(from) + square_text(to)) == Some(
            UciMove::Normal { from, to, promotion: None },
        ),
        UciMove::parse_spec(square_text(from) + square_text(to) + seq!['n']) == Some(
            UciMove::Normal { from, to, promotion: Some(Role::Knight) },
        ),
        UciMove::parse_spec(square_text(from) + square_text(to) + seq!['b']) == Some(
            UciMove::Normal { from, to, promotion: Some(Role::Bishop) },
        ),
        UciMove::parse_spec(square_text(from) + square_text(to) + seq!['r']) == Some(
            UciMove::Normal { from, to, promotion: Some(Role::Rook) },
        ),
        UciMove::parse_spec(square_text(from) + square_text(to) + seq!['q']) == Some(
            UciMove::Normal { from, to, promotion: Some(Role::Queen) },
        ),
{
    law_text_parses_back(UciMove::Normal { from, to, promotion: None });
    law_text_parses_back(UciMove::Normal { from, to, promotion: Some(Role::Knight) });
    law_text_parses_back(UciMove::Normal { from, to, promotion: Some(Role::Bishop) });
    law_text_parses_back(UciMove::Normal { from, to, promotion: Some(Role::Rook) });
    law_text_parses_back(UciMove::Normal { from, to, promotion: Some(Role::Queen) });
}

} // verus!
