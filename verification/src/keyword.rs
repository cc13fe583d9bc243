//! The reserved words of the SQL dialect, matched exactly on uppercased
//! lexemes.

use vstd::prelude::*;

verus! {

/// A reserved SQL word. The scanner emits `TokenKind::Keyword` carrying one
/// of these whenever an identifier-shaped lexeme, once uppercased, equals the
/// word exactly.
#[derive(Debug, Clone, Copy, PartialEq, Eq, Structural)]
pub enum Keyword {
    Select,
    From,
    Create,
    Table,
    Int,
    Primary,
    Key,
    Varchar,
    Date,
    Decimal,
    Insert,
    Into,
    Value,
    Values,
}

/// The byte at `i` read as a character, for stating word shapes.
pub open spec fn ch(s: Seq<u8>, i: int) -> char {
    s[i] as char
}

pub open spec fn is_word_select(s: Seq<u8>) -> bool {
    s.len() == 6 && ch(s, 0) == 'S' && ch(s, 1) == 'E' && ch(s, 2) == 'L' && ch(s, 3) == 'E'
        && ch(s, 4) == 'C' && ch(s, 5) == 'T'
}

pub open spec fn is_word_from(s: Seq<u8>) -> bool {
    s.len() == 4 && ch(s, 0) == 'F' && ch(s, 1) == 'R' && ch(s, 2) == 'O' && ch(s, 3) == 'M'
}

pub open spec fn is_word_create(s: Seq<u8>) -> bool {
    s.len() == 6 && ch(s, 0) == 'C' && ch(s, 1) == 'R' && ch(s, 2) == 'E' && ch(s, 3) == 'A'
        && ch(s, 4) == 'T' && ch(s, 5) == 'E'
}

pub open spec fn is_word_table(s: Seq<u8>) -> bool {
    s.len() == 5 && ch(s, 0) == 'T' && ch(s, 1) == 'A' && ch(s, 2) == 'B' && ch(s, 3) == 'L'
        && ch(s, 4) == 'E'
}

pub open spec fn is_word_int(s: Seq<u8>) -> bool {
    s.len() == 3 && ch(s, 0) == 'I' && ch(s, 1) == 'N' && ch(s, 2) == 'T'
}

pub open spec fn is_word_primary(s: Seq<u8>) -> bool {
    s.len() == 7 && ch(s, 0) == 'P' && ch(s, 1) == 'R' && ch(s, 2) == 'I' && ch(s, 3) == 'M'
        && ch(s, 4) == 'A' && ch(s, 5) == 'R' && ch(s, 6) == 'Y'
}

pub open spec fn is_word_key(s: Seq<u8>) -> bool {
    s.len() == 3 && ch(s, 0) == 'K' && ch(s, 1) == 'E' && ch(s, 2) == 'Y'
}

pub open spec fn is_word_varchar(s: Seq<u8>) -> bool {
    s.len() == 7 && ch(s, 0) == 'V' && ch(s, 1) == 'A' && ch(s, 2) == 'R' && ch(s, 3) == 'C'
        && ch(s, 4) == 'H' && ch(s, 5) == 'A' && ch(s, 6) == 'R'
}

pub open spec fn is_word_date(s: Seq<u8>) -> bool {
    s.len() == 4 && ch(s, 0) == 'D' && ch(s, 1) == 'A' && ch(s, 2) == 'T' && ch(s, 3) == 'E'
}

pub open spec fn is_word_decimal(s: Seq<u8>) -> bool {
    s.len() == 7 && ch(s, 0) == 'D' && ch(s, 1) == 'E' && ch(s, 2) == 'C' && ch(s, 3) == 'I'
        && ch(s, 4) == 'M' && ch(s, 5) == 'A' && ch(s, 6) == 'L'
}

pub open spec fn is_word_insert(s: Seq<u8>) -> bool {
    s.len() == 6 && ch(s, 0) == 'I' && ch(s, 1) == 'N' && ch(s, 2) == 'S' && ch(s, 3) == 'E'
        && ch(s, 4) == 'R' && ch(s, 5) == 'T'
}

pub open spec fn is_word_into(s: Seq<u8>) -> bool {
    s.len() == 4 && ch(s, 0) == 'I' && ch(s, 1) == 'N' && ch(s, 2) == 'T' && ch(s, 3) == 'O'
}

pub open spec fn is_word_value(s: Seq<u8>) -> bool {
    s.len() == 5 && ch(s, 0) == 'V' && ch(s, 1) == 'A' && ch(s, 2) == 'L' && ch(s, 3) == 'U'
        && ch(s, 4) == 'E'
}

pub open spec fn is_word_values(s: Seq<u8>) -> bool {
    s.len() == 6 && ch(s, 0) == 'V' && ch(s, 1) == 'A' && ch(s, 2) == 'L' && ch(s, 3) == 'U'
        && ch(s, 4) == 'E' && ch(s, 5) == 'S'
}

/// The keyword table: which reserved word, if any, an already-uppercased
/// lexeme names. The match is exact: no prefix or suffix of a word counts.
pub open spec fn keyword_of(s: Seq<u8>) -> Option<Keyword> {
    if is_word_select(s) {
        Some(Keyword::Select)
    } else if is_word_from(s) {
        Some(Keyword::From)
    } else if is_word_create(s) {
        Some(Keyword::Create)
    } else if is_word_table(s) {
        Some(Keyword::Table)
    } else if is_word_int(s) {
        Some(Keyword::Int)
    } else if is_word_primary(s) {
        Some(Keyword::Primary)
    } else if is_word_key(s) {
        Some(Keyword::Key)
    } else if is_word_varchar(s) {
        Some(Keyword::Varchar)
    } else if is_word_date(s) {
        Some(Keyword::Date)
    } else if is_word_decimal(s) {
        Some(Keyword::Decimal)
    } else if is_word_insert(s) {
        Some(Keyword::Insert)
    } else if is_word_into(s) {
        Some(Keyword::Into)
    } else if is_word_value(s) {
        Some(Keyword::Value)
    } else if is_word_values(s) {
        Some(Keyword::Values)
    } else {
        None
    }
}

impl Keyword {
    /// Looks an uppercased lexeme up in the keyword table.
    pub fn parse(word: &[u8]) -> (r: Option<Keyword>)
        ensures
            r == keyword_of(word@),
    {
        let n = word.len();
        if n == 6 && word[0] as char == 'S' && word[1] as char == 'E' && word[2] as char == 'L'
            && word[3] as char == 'E' && word[4] as char == 'C' && word[5] as char == 'T' {
            Some(Keyword::Select)
        } else if n == 4 && word[0] as char == 'F' && word[1] as char == 'R'
            && word[2] as char == 'O' && word[3] as char == 'M' {
            Some(Keyword::From)
        } else if n == 6 && word[0] as char == 'C' && word[1] as char == 'R'
            && word[2] as char == 'E' && word[3] as char == 'A' && word[4] as char == 'T'
            && word[5] as char == 'E' {
            Some(Keyword::Create)
        } else if n == 5 && word[0] as char == 'T' && word[1] as char == 'A'
            && word[2] as char == 'B' && word[3] as char == 'L' && word[4] as char == 'E' {
            Some(Keyword::Table)
        } else if n == 3 && word[0] as char == 'I' && word[1] as char == 'N'
            && word[2] as char == 'T' {
            Some(Keyword::Int)
        } else if n == 7 && word[0] as char == 'P' && word[1] as char == 'R'
            && word[2] as char == 'I' && word[3] as char == 'M' && word[4] as char == 'A'
            && word[5] as char == 'R' && word[6] as char == 'Y' {
            Some(Keyword::Primary)
        } else if n == 3 && word[0] as char == 'K' && word[1] as char == 'E'
            && word[2] as char == 'Y' {
            Some(Keyword::Key)
        } else if n == 7 && word[0] as char == 'V' && word[1] as char == 'A'
            && word[2] as char == 'R' && word[3] as char == 'C' && word[4] as char == 'H'
            && word[5] as char == 'A' && word[6] as char == 'R' {
            Some(Keyword::Varchar)
        } else if n == 4 && word[0] as char == 'D' && word[1] as char == 'A'
            && word[2] as char == 'T' && word[3] as char == 'E' {
            Some(Keyword::Date)
        } else if n == 7 && word[0] as char == 'D' && word[1] as char == 'E'
            && word[2] as char == 'C' && word[3] as char == 'I' && word[4] as char == 'M'
            && word[5] as char == 'A' && word[6] as char == 'L' {
            Some(Keyword::Decimal)
        } else if n == 6 && word[0] as char == 'I' && word[1] as char == 'N'
            && word[2] as char == 'S' && word[3] as char == 'E' && word[4] as char == 'R'
            && word[5] as char == 'T' {
            Some(Keyword::Insert)
        } else if n == 4 && word[0] as char == 'I' && word[1] as char == 'N'
            && word[2] as char == 'T' && word[3] as char == 'O' {
            Some(Keyword::Into)
        } else if n == 5 && word[0] as char == 'V' && word[1] as char == 'A'
            && word[2] as char == 'L' && word[3] as char == 'U' && word[4] as char == 'E' {
            Some(Keyword::Value)
        } else if n == 6 && word[0] as char == 'V' && word[1] as char == 'A'
            && word[2] as char == 'L' && word[3] as char == 'U' && word[4] as char == 'E'
            && word[5] as char == 'S' {
            Some(Keyword::Values)
        } else {
            None
        }
    }
}

} // verus!
