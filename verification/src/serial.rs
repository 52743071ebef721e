//! The persistable form of a puzzle.
//!
//! The coordinate-keyed sigil map is flattened to string keys: the two
//! integers in decimal, joined by a single space. Writing and reading a
//! key are exact inverses, and reading reports malformed keys as a typed
//! error.

use vstd::prelude::*;
use vstd::string::StringExecFns;

use crate::coordinate::SigilCoordinate;
use crate::line::Line;
use crate::puzzle::{Puzzle, copy_lines};
use crate::rune::{Sigil, SigilMap};

verus! {

/// Why a stored key failed to read back as a coordinate.
#[derive(Clone, Copy, PartialEq, Eq, Structural, Debug)]
pub enum FromKeyError {
    /// A piece of the key is not a decimal integer in range.
    FromStr,
    /// The key does not hold exactly two pieces.
    SliceDoesntFit,
}

/// The decimal digit character for a value from zero to nine.
pub open spec fn digit_char(d: int) -> char {
    if d == 0 {
        '0'
    } else if d == 1 {
        '1'
    } else if d == 2 {
        '2'
    } else if d == 3 {
        '3'
    } else if d == 4 {
        '4'
    } else if d == 5 {
        '5'
    } else if d == 6 {
        '6'
    } else if d == 7 {
        '7'
    } else if d == 8 {
        '8'
    } else {
        '9'
    }
}

/// The value of a decimal digit character, or a negative value for any
/// other character.
pub open spec fn digit_val(c: char) -> int {
    if c == '0' {
        0
    } else if c == '1' {
        1
    } else if c == '2' {
        2
    } else if c == '3' {
        3
    } else if c == '4' {
        4
    } else if c == '5' {
        5
    } else if c == '6' {
        6
    } else if c == '7' {
        7
    } else if c == '8' {
        8
    } else if c == '9' {
        9
    } else {
        -1
    }
}

/// Whether a character is a decimal digit.
pub open spec fn is_digit(c: char) -> bool {
    digit_val(c) >= 0
}

/// The decimal digits of a natural number, most significant first, with
/// no leading zeros (zero itself is the single digit `0`).
pub open spec fn dec_digits(n: nat) -> Seq<char>
    decreases n,
{
    if n < 10 {
        seq![digit_char(n as int)]
    } else {
        dec_digits(n / 10).push(digit_char((n % 10) as int))
    }
}

/// The canonical decimal text of a signed value: a minus sign for a
/// negative value, then the digits of its magnitude.
pub open spec fn int_chars(x: int) -> Seq<char> {
    if x < 0 {
        seq!['-'] + dec_digits((-x) as nat)
    } else {
        dec_digits(x as nat)
    }
}

/// The stored key of a coordinate: both components in decimal, joined by
/// one space.
pub open spec fn key_chars(c: SigilCoordinate) -> Seq<char> {
    int_chars(c.x as int) + seq![' '] + int_chars(c.y as int)
}

/// The single-character text of a decimal digit.
fn digit_str(d: u32) -> (r: &'static str)
    requires
        d < 10,
    ensures
        r@ == seq![digit_char(d as int)],
{
    proof {
        reveal_strlit("0");
        reveal_strlit("1");
        reveal_strlit("2");
        reveal_strlit("3");
        reveal_strlit("4");
        reveal_strlit("5");
        reveal_strlit("6");
        reveal_strlit("7");
        reveal_strlit("8");
        reveal_strlit("9");
    }
    match d {
        0 => "0",
        1 => "1",
        2 => "2",
        3 => "3",
        4 => "4",
        5 => "5",
        6 => "6",
        7 => "7",
        8 => "8",
        _ => "9",
    }
}

/// Appends the decimal digits of a value, most significant first.
fn push_decimal(n: u32, out: &mut String)
    ensures
        final(out)@ == old(out)@ + dec_digits(n as nat),
    decreases n,
{
    if n >= 10 {
        push_decimal(n / 10, out);
    }
    out.append(digit_str(n % 10));
    proof {
        assert(out@ =~= old(out)@ + dec_digits(n as nat));
    }
}

/// Appends the canonical decimal text of a signed value.
fn push_int(v: i32, out: &mut String)
    ensures
        final(out)@ == old(out)@ + int_chars(v as int),
{
    if v < 0 {
        proof {
            reveal_strlit("-");
        }
        out.append("-");
        let magnitude: u32 = (-(v as i64)) as u32;
        push_decimal(magnitude, out);
        proof {
            assert(out@ =~= old(out)@ + int_chars(v as int));
        }
    } else {
        push_decimal(v as u32, out);
    }
}

/// The pieces of a character sequence split on spaces, empty pieces kept:
/// one more piece than there are spaces.
pub open spec fn split_spaces(s: Seq<char>) -> Seq<Seq<char>>
    decreases s.len(),
{
    if s.len() == 0 {
        seq![Seq::<char>::empty()]
    } else if s.last() == ' ' {
        split_spaces(s.drop_last()).push(Seq::<char>::empty())
    } else {
        let rest = split_spaces(s.drop_last());
        rest.update(rest.len() - 1, rest.last().push(s.last()))
    }
}

/// The value of a run of decimal digits, most significant first.
pub open spec fn digits_val(s: Seq<char>) -> int
    decreases s.len(),
{
    if s.len() == 0 {
        0
    } else {
        digits_val(s.drop_last()) * 10 + digit_val(s.last())
    }
}

/// Every character of the sequence is a decimal digit.
pub open spec fn all_digits(s: Seq<char>) -> bool {
    forall|i: int| 0 <= i < s.len() ==> is_digit(#[trigger] s[i])
}

/// The digit run of a piece: everything after a leading sign, or the
/// whole piece.
pub open spec fn body_of(s: Seq<char>) -> Seq<char> {
    if s.len() >= 1 && (s[0] == '-' || s[0] == '+') {
        s.subrange(1, s.len() as int)
    } else {
        s
    }
}

/// Whether a piece reads as an `i32`: an optional sign, then at least one
/// decimal digit, with the value in range.
pub open spec fn valid_i32_str(s: Seq<char>) -> bool {
    &&& body_of(s).len() >= 1
    &&& all_digits(body_of(s))
    &&& (if s.len() >= 1 && s[0] == '-' {
        digits_val(body_of(s)) <= 0x8000_0000
    } else {
        digits_val(body_of(s)) <= 0x7fff_ffff
    })
}

/// The value a valid piece reads as.
pub open spec fn i32_str_val(s: Seq<char>) -> int {
    if s.len() >= 1 && s[0] == '-' {
        -digits_val(body_of(s))
    } else {
        digits_val(body_of(s))
    }
}

/// What reading a stored key yields: the coordinate, or the first way the
/// key is malformed. Every piece must read as an `i32`, and there must be
/// exactly two pieces.
pub open spec fn key_parse(s: Seq<char>) -> Result<SigilCoordinate, FromKeyError> {
    let parts = split_spaces(s);
    if exists|i: int| 0 <= i < parts.len() && !valid_i32_str(#[trigger] parts[i]) {
        Result::Err(FromKeyError::FromStr)
    } else if parts.len() != 2 {
        Result::Err(FromKeyError::SliceDoesntFit)
    } else {
        Result::Ok(
            SigilCoordinate {
                x: i32_str_val(parts[0]) as i32,
                y: i32_str_val(parts[1]) as i32,
            },
        )
    }
}

/// The value of a decimal digit character, if it is one.
fn digit_of(c: char) -> (r: Option<u32>)
    ensures
        match r {
            Some(d) => is_digit(c) && d == digit_val(c),
            None => !is_digit(c),
        },
{
    match c {
        '0' => Some(0),
        '1' => Some(1),
        '2' => Some(2),
        '3' => Some(3),
        '4' => Some(4),
        '5' => Some(5),
        '6' => Some(6),
        '7' => Some(7),
        '8' => Some(8),
        '9' => Some(9),
        _ => None,
    }
}

/// A run of digits is worth no less than any of its prefixes.
proof fn lemma_digits_val_prefix(s: Seq<char>, k: int)
    requires
        all_digits(s),
        0 <= k <= s.len(),
    ensures
        digits_val(s) >= digits_val(s.take(k)),
        digits_val(s) >= 0,
    decreases s.len(),
{
    if s.len() == 0 {
    } else {
        assert(is_digit(s.last()));
        assert forall|i: int| 0 <= i < s.drop_last().len() implies is_digit(
            #[trigger] s.drop_last()[i],
        ) by {
            assert(s.drop_last()[i] == s[i]);
        }
        lemma_digits_val_prefix(s.drop_last(), if k <= s.len() - 1 {
            k
        } else {
            s.len() - 1
        });
        if k <= s.len() - 1 {
            assert(s.take(k) =~= s.drop_last().take(k));
        } else {
            assert(s.take(k) =~= s);
        }
    }
}

/// Reads a piece as an `i32`: an optional sign, then decimal digits.
#[verifier::loop_isolation(false)]
fn parse_i32(piece: &Vec<char>) -> (r: Option<i32>)
    ensures
        match r {
            Some(v) => valid_i32_str(piece@) && v as int == i32_str_val(piece@),
            None => !valid_i32_str(piece@),
        },
{
    let negative: bool = piece.len() >= 1 && piece[0] == '-';
    let signed: bool = piece.len() >= 1 && (piece[0] == '-' || piece[0] == '+');
    let start: usize = if signed {
        1
    } else {
        0
    };
    let ghost body = body_of(piece@);
    proof {
        assert(body =~= piece@.subrange(start as int, piece@.len() as int));
    }
    if piece.len() == start {
        return None;
    }
    let mut acc: i64 = 0;
    let mut i: usize = start;
    while i < piece.len()
        invariant
            start <= i <= piece@.len(),
            0 <= acc <= 0x8000_0000,
            all_digits(body.take(i - start)),
            acc == digits_val(body.take(i - start)),
        decreases piece@.len() - i,
    {
        let d = match digit_of(piece[i]) {
            Some(d) => d,
            None => {
                proof {
                    assert(body[i - start] == piece@[i as int]);
                }
                return None;
            },
        };
        proof {
            assert(body.take(i + 1 - start).drop_last() =~= body.take(i - start));
            assert(body.take(i + 1 - start).last() == piece@[i as int]);
        }
        acc = acc * 10 + d as i64;
        if acc > 0x8000_0000 {
            proof {
                assert(all_digits(body.take(i + 1 - start)));
                if valid_i32_str(piece@) {
                    lemma_digits_val_prefix(body, i + 1 - start);
                }
            }
            return None;
        }
        i = i + 1;
    }
    proof {
        assert(body.take(piece@.len() - start) =~= body);
    }
    if negative {
        Some((-acc) as i32)
    } else {
        if acc > 0x7fff_ffff {
            return None;
        }
        Some(acc as i32)
    }
}

/// Splits on spaces and reads both pieces of a key.
#[verifier::loop_isolation(false)]
fn parse_key_chars(cs: &Vec<char>) -> (r: Result<SigilCoordinate, FromKeyError>)
    ensures
        r == key_parse(cs@),
{
    let mut parts: Vec<Vec<char>> = Vec::new();
    let mut cur: Vec<char> = Vec::new();
    let mut i: usize = 0;
    while i < cs.len()
        invariant
            i <= cs@.len(),
            split_spaces(cs@.take(i as int)) == parts.deep_view().push(cur@),
        decreases cs@.len() - i,
    {
        proof {
            assert(cs@.take(i + 1).drop_last() =~= cs@.take(i as int));
            assert(cs@.take(i + 1).last() == cs@[i as int]);
        }
        let ghost parts0 = parts.deep_view();
        let ghost cur0 = cur@;
        if cs[i] == ' ' {
            parts.push(cur);
            cur = Vec::new();
            proof {
                assert(parts.deep_view() =~~= parts0.push(cur0));
                assert(split_spaces(cs@.take(i + 1)) =~~= parts.deep_view().push(cur@));
            }
        } else {
            cur.push(cs[i]);
            proof {
                let rest = parts0.push(cur0);
                assert(split_spaces(cs@.take(i + 1)) =~~= rest.update(
                    rest.len() - 1,
                    rest.last().push(cs@[i as int]),
                ));
                assert(split_spaces(cs@.take(i + 1)) =~~= parts.deep_view().push(cur@));
            }
        }
        i = i + 1;
    }
    proof {
        assert(cs@.take(cs@.len() as int) =~= cs@);
    }
    let ghost parts0 = parts.deep_view();
    let ghost cur0 = cur@;
    parts.push(cur);
    proof {
        assert(parts.deep_view() =~~= parts0.push(cur0));
        assert(parts.deep_view() == split_spaces(cs@));
    }
    let ghost pieces = split_spaces(cs@);
    let mut vals: Vec<i32> = Vec::new();
    let mut j: usize = 0;
    while j < parts.len()
        invariant
            vals@.len() == j <= parts@.len(),
            parts.deep_view() == pieces,
            forall|k: int|
                0 <= k < j ==> valid_i32_str(#[trigger] pieces[k]) && vals@[k] as int
                    == i32_str_val(pieces[k]),
        decreases parts@.len() - j,
    {
        proof {
            assert(parts@[j as int]@ == pieces[j as int]);
        }
        match parse_i32(&parts[j]) {
            Some(v) => {
                vals.push(v);
            },
            None => {
                return Result::Err(FromKeyError::FromStr);
            },
        }
        j = j + 1;
    }
    if parts.len() != 2 {
        return Result::Err(FromKeyError::SliceDoesntFit);
    }
    Result::Ok(SigilCoordinate { x: vals[0], y: vals[1] })
}

impl SigilCoordinate {
    /// Reads a coordinate back from its stored key. The key must hold
    /// exactly two pieces joined by one space, each a decimal integer in
    /// range.
    pub fn from_key(key: &str) -> (r: Result<SigilCoordinate, FromKeyError>)
        ensures
            r == key_parse(key@),
    {
        let n = key.unicode_len();
        let mut cs: Vec<char> = Vec::new();
        let mut i: usize = 0;
        while i < n
            invariant
                n == key@.len(),
                i <= n,
                cs@ == key@.take(i as int),
            decreases n - i,
        {
            cs.push(key.get_char(i));
            proof {
                assert(cs@ =~= key@.take(i + 1));
            }
            i = i + 1;
        }
        proof {
            assert(key@.take(n as int) =~= key@);
        }
        parse_key_chars(&cs)
    }

    /// The key this coordinate is stored under: both components in
    /// decimal, joined by one space.
    pub fn as_key(&self) -> (r: String)
        ensures
            r@ == key_chars(*self),
    {
        let mut out = String::new();
        push_int(self.x, &mut out);
        proof {
            reveal_strlit(" ");
        }
        out.append(" ");
        push_int(self.y, &mut out);
        proof {
            assert(out@ =~= key_chars(*self));
        }
        out
    }
}

/// The coordinate a stored key reads back as (meaningful when the key is
/// well formed).
pub open spec fn key_coord(k: Seq<char>) -> SigilCoordinate {
    key_parse(k)->Ok_0
}

/// The sigil map that a flattened pair list reads back as: keys parsed,
/// later pairs shadowing earlier ones.
pub open spec fn parsed_map(s: Seq<(String, Sigil)>) -> Map<(int, int), Sigil>
    decreases s.len(),
{
    if s.len() == 0 {
        Map::empty()
    } else {
        parsed_map(s.drop_last()).insert(key_coord(s.last().0@)@, s.last().1)
    }
}

/// A key is in the map a pair list reads back as exactly when some pair's
/// key parses to it.
proof fn lemma_parsed_map_domain(s: Seq<(String, Sigil)>, k: (int, int))
    ensures
        parsed_map(s).contains_key(k) <==> exists|i: int|
            0 <= i < s.len() && key_coord((#[trigger] s[i]).0@)@ == k,
    decreases s.len(),
{
    if s.len() > 0 {
        lemma_parsed_map_domain(s.drop_last(), k);
        if key_coord(s.last().0@)@ == k {
            assert(key_coord(s[s.len() - 1].0@)@ == k);
        } else if parsed_map(s).contains_key(k) {
            let i = choose|i: int|
                0 <= i < s.drop_last().len() && key_coord(
                    (#[trigger] s.drop_last()[i]).0@,
                )@ == k;
            assert(key_coord(s[i].0@)@ == k);
        } else {
            if exists|i: int| 0 <= i < s.len() && key_coord((#[trigger] s[i]).0@)@ == k {
                let i = choose|i: int| 0 <= i < s.len() && key_coord((#[trigger] s[i]).0@)@ == k;
                assert(i < s.len() - 1);
                assert(key_coord(s.drop_last()[i].0@)@ == k);
            }
        }
    }
}

/// Every pair's key parses, and no two keys parse to the same coordinate.
pub open spec fn parsed_distinct(s: Seq<(String, Sigil)>) -> bool {
    forall|i: int, j: int|
        0 <= i < j < s.len() ==> key_coord((#[trigger] s[i]).0@)@ != key_coord(
            (#[trigger] s[j]).0@,
        )@
}

/// What flattening a puzzle produces: each placed sigil stored under its
/// coordinate's key, in placement order; lines and cursor verbatim.
pub open spec fn serialized_form(p: Puzzle, sp: SerialablePuzzle) -> bool {
    &&& sp.sigils@.len() == p.sigils.pairs().len()
    &&& forall|i: int|
        0 <= i < sp.sigils@.len() ==> (#[trigger] sp.sigils@[i]).0@ == key_chars(
            p.sigils.pairs()[i].0,
        ) && sp.sigils@[i].1 == p.sigils.pairs()[i].1
    &&& sp.lines@ == p.lines@
    &&& sp.cursor == p.cursor
}

/// What reading a flattened puzzle back successfully yields: lines and
/// cursor verbatim, and the sigil map that the parsed keys build.
pub open spec fn deserialized_form(sp: SerialablePuzzle, q: Puzzle) -> bool {
    &&& q.wf()
    &&& q.lines@ == sp.lines@
    &&& q.cursor == sp.cursor
    &&& q.sigils@ == parsed_map(sp.sigils@)
    &&& (parsed_distinct(sp.sigils@) ==> q.sigils.pairs() == Seq::new(
        sp.sigils@.len(),
        |i: int| (key_coord(sp.sigils@[i].0@), sp.sigils@[i].1),
    ))
}

/// A puzzle flattened for storage: the sigil map as string-keyed pairs,
/// the lines and the cursor verbatim.
#[derive(Debug)]
pub struct SerialablePuzzle {
    pub sigils: Vec<(String, Sigil)>,
    pub lines: Vec<Line>,
    pub cursor: SigilCoordinate,
}

impl SerialablePuzzle {
    /// Flattens a puzzle: each placed sigil is stored under its
    /// coordinate's key, in placement order; lines and cursor are kept
    /// verbatim.
    pub fn from_puzzle(puzzle: &Puzzle) -> (r: Self)
        ensures
            serialized_form(*puzzle, r),
    {
        let mut sigils: Vec<(String, Sigil)> = Vec::new();
        let count = puzzle.sigils.len();
        let mut i: usize = 0;
        while i < count
            invariant
                count == puzzle.sigils.pairs().len(),
                i <= count,
                sigils@.len() == i,
                forall|k: int|
                    0 <= k < i ==> (#[trigger] sigils@[k]).0@ == key_chars(
                        puzzle.sigils.pairs()[k].0,
                    ) && sigils@[k].1 == puzzle.sigils.pairs()[k].1,
            decreases count - i,
        {
            let (coordinate, sigil) = puzzle.sigils.pair_at(i);
            sigils.push((coordinate.as_key(), sigil));
            i = i + 1;
        }
        SerialablePuzzle { sigils, lines: copy_lines(&puzzle.lines), cursor: puzzle.cursor }
    }
}

impl Puzzle {
    /// Reads a flattened puzzle back: every stored key must parse, the
    /// first malformed key's error is reported, and a later duplicate key
    /// shadows an earlier one as in any map.
    #[verifier::loop_isolation(false)]
    pub fn try_from_serialable(value: &SerialablePuzzle) -> (r: Result<Puzzle, FromKeyError>)
        ensures
            r is Ok <==> (forall|i: int|
                0 <= i < value.sigils@.len() ==> key_parse((#[trigger] value.sigils@[i]).0@) is Ok),
            r matches Err(e) ==> exists|i: int|
                0 <= i < value.sigils@.len() && (key_parse((#[trigger] value.sigils@[i]).0@)
                    matches Err(e2) && e == e2),
            r matches Ok(p) ==> deserialized_form(*value, p),
    {
        let ghost s = value.sigils@;
        let mut sigils = SigilMap::new();
        let mut i: usize = 0;
        while i < value.sigils.len()
            invariant
                i <= s.len(),
                sigils.wf(),
                forall|k: int| 0 <= k < i ==> key_parse((#[trigger] s[k]).0@) is Ok,
                sigils@ == parsed_map(s.take(i as int)),
                parsed_distinct(s) ==> sigils.pairs() == Seq::new(
                    i as nat,
                    |k: int| (key_coord(s[k].0@), s[k].1),
                ),
            decreases s.len() - i,
        {
            match SigilCoordinate::from_key(value.sigils[i].0.as_str()) {
                Ok(coordinate) => {
                    let ghost pairs0 = sigils.pairs();
                    sigils.insert(coordinate, value.sigils[i].1);
                    proof {
                        assert(s.take(i + 1).drop_last() =~= s.take(i as int));
                        assert(s.take(i + 1).last() == s[i as int]);
                        assert(sigils@ =~= parsed_map(s.take(i + 1)));
                        if parsed_distinct(s) {
                            lemma_parsed_map_domain(s.take(i as int), coordinate@);
                            assert(!parsed_map(s.take(i as int)).contains_key(coordinate@));
                            assert(sigils.pairs() =~= Seq::new(
                                (i + 1) as nat,
                                |k: int| (key_coord(s[k].0@), s[k].1),
                            ));
                        }
                    }
                },
                Err(e) => {
                    return Result::Err(e);
                },
            }
            i = i + 1;
        }
        proof {
            assert(s.take(s.len() as int) =~= s);
        }
        Result::Ok(Puzzle { sigils, lines: copy_lines(&value.lines), cursor: value.cursor })
    }
}

/// The digits of a natural number: at least one of them, every one a
/// digit character, and worth the number itself.
proof fn lemma_dec_digits(n: nat)
    ensures
        all_digits(dec_digits(n)),
        dec_digits(n).len() >= 1,
        digits_val(dec_digits(n)) == n,
    decreases n,
{
    if n < 10 {
        let s = dec_digits(n);
        assert(s.len() == 1);
        assert(s.last() == digit_char(n as int));
        assert(s.drop_last() =~= Seq::<char>::empty());
        assert(digits_val(s) == digits_val(s.drop_last()) * 10 + digit_val(s.last()));
        assert(digits_val(s.drop_last()) == 0);
        assert(digit_val(digit_char(n as int)) == n);
    } else {
        lemma_dec_digits(n / 10);
        let s = dec_digits(n);
        let rest = dec_digits(n / 10);
        assert(s.drop_last() =~= rest);
        assert(s.last() == digit_char((n % 10) as int));
        assert(digit_val(digit_char((n % 10) as int)) == n % 10);
        vstd::arithmetic::div_mod::lemma_fundamental_div_mod(n as int, 10);
        assert forall|i: int| 0 <= i < s.len() implies is_digit(#[trigger] s[i]) by {
            if i < rest.len() {
                assert(s[i] == rest[i]);
            }
        }
    }
}

/// The canonical text of an in-range value is a valid piece, contains no
/// space, and reads back as the value.
proof fn lemma_int_chars(v: int)
    requires
        -0x8000_0000 <= v <= 0x7fff_ffff,
    ensures
        valid_i32_str(int_chars(v)),
        i32_str_val(int_chars(v)) == v,
        forall|i: int| 0 <= i < int_chars(v).len() ==> (#[trigger] int_chars(v)[i]) != ' ',
{
    let s = int_chars(v);
    if v < 0 {
        lemma_dec_digits((-v) as nat);
        let d = dec_digits((-v) as nat);
        assert(s[0] == '-');
        assert(body_of(s) =~= d);
        assert forall|i: int| 0 <= i < s.len() implies (#[trigger] s[i]) != ' ' by {
            if i >= 1 {
                assert(s[i] == d[i - 1]);
                assert(is_digit(d[i - 1]));
            }
        }
    } else {
        lemma_dec_digits(v as nat);
        assert(is_digit(s[0]));
        assert(s[0] != '-' && s[0] != '+');
        assert(body_of(s) =~= s);
        assert forall|i: int| 0 <= i < s.len() implies (#[trigger] s[i]) != ' ' by {
            assert(is_digit(s[i]));
        }
    }
}

/// Splitting has at least one piece.
proof fn lemma_split_len(s: Seq<char>)
    ensures
        split_spaces(s).len() >= 1,
    decreases s.len(),
{
    if s.len() > 0 {
        lemma_split_len(s.drop_last());
    }
}

/// A sequence without spaces splits to itself alone.
proof fn lemma_split_nospace(s: Seq<char>)
    requires
        forall|i: int| 0 <= i < s.len() ==> (#[trigger] s[i]) != ' ',
    ensures
        split_spaces(s) == seq![s],
    decreases s.len(),
{
    if s.len() == 0 {
        assert(split_spaces(s) =~~= seq![s]);
    } else {
        assert forall|i: int| 0 <= i < s.drop_last().len() implies (#[trigger] s.drop_last()[i])
            != ' ' by {
            assert(s.drop_last()[i] == s[i]);
        }
        lemma_split_nospace(s.drop_last());
        assert(s.last() != ' ');
        assert(s.drop_last().push(s.last()) =~= s);
        assert(split_spaces(s) =~~= seq![s]);
    }
}

/// Appending a space-free tail only lengthens the final piece.
proof fn lemma_split_concat_nospace(a: Seq<char>, t: Seq<char>)
    requires
        forall|i: int| 0 <= i < t.len() ==> (#[trigger] t[i]) != ' ',
    ensures
        split_spaces(a + t) == split_spaces(a).update(
            split_spaces(a).len() - 1,
            split_spaces(a).last() + t,
        ),
    decreases t.len(),
{
    lemma_split_len(a);
    if t.len() == 0 {
        assert(a + t =~= a);
        assert(split_spaces(a).last() + t =~= split_spaces(a).last());
        assert(split_spaces(a).update(
            split_spaces(a).len() - 1,
            split_spaces(a).last() + t,
        ) =~~= split_spaces(a));
    } else {
        assert forall|i: int| 0 <= i < t.drop_last().len() implies (#[trigger] t.drop_last()[i])
            != ' ' by {
            assert(t.drop_last()[i] == t[i]);
        }
        lemma_split_concat_nospace(a, t.drop_last());
        let u = a + t;
        assert(u.last() == t.last());
        assert(t.last() != ' ');
        assert(u.drop_last() =~= a + t.drop_last());
        let prev = split_spaces(a).update(
            split_spaces(a).len() - 1,
            split_spaces(a).last() + t.drop_last(),
        );
        assert(split_spaces(u.drop_last()) == prev);
        assert(prev.last() == split_spaces(a).last() + t.drop_last());
        assert(prev.last().push(t.last()) =~= split_spaces(a).last() + t);
        assert(split_spaces(u) =~~= split_spaces(a).update(
            split_spaces(a).len() - 1,
            split_spaces(a).last() + t,
        ));
    }
}

/// Reading a coordinate's stored key gives the coordinate back: writing
/// and reading keys are exact inverses.
pub proof fn lemma_key_round_trip(c: SigilCoordinate)
    ensures
        key_parse(key_chars(c)) == Result::<SigilCoordinate, FromKeyError>::Ok(c),
{
    let a = int_chars(c.x as int);
    let b = int_chars(c.y as int);
    lemma_int_chars(c.x as int);
    lemma_int_chars(c.y as int);
    let a1 = a + seq![' '];
    assert(a1.last() == ' ');
    assert(a1.drop_last() =~= a);
    lemma_split_nospace(a);
    assert(split_spaces(a1) =~~= seq![a, Seq::<char>::empty()]);
    lemma_split_concat_nospace(a1, b);
    assert(key_chars(c) =~= a1 + b);
    assert(Seq::<char>::empty() + b =~= b);
    let parts = split_spaces(key_chars(c));
    assert(parts =~~= seq![a, b]);
    assert forall|i: int| 0 <= i < parts.len() implies valid_i32_str(#[trigger] parts[i]) by {
        if i == 0 {
            assert(parts[i] == a);
        } else {
            assert(parts[i] == b);
        }
    }
    assert(i32_str_val(parts[0]) == c.x as int);
    assert(i32_str_val(parts[1]) == c.y as int);
    assert(key_parse(key_chars(c))->Ok_0 == c);
}


/// Flattening a well-formed puzzle and reading it back reproduces the
/// puzzle exactly: every stored key parses, and any puzzle the read
/// yields holds the same sigils in the same order, the same lines and the
/// same cursor.
pub proof fn lemma_serialization_round_trip(p: Puzzle, sp: SerialablePuzzle)
    requires
        p.wf(),
        serialized_form(p, sp),
    ensures
        forall|i: int| 0 <= i < sp.sigils@.len() ==> key_parse((#[trigger] sp.sigils@[i]).0@) is Ok,
        forall|q: Puzzle| #[trigger] deserialized_form(sp, q) ==> q.state_eq(&p),
{
    let pairs = p.sigils.pairs();
    assert forall|i: int|
        0 <= i < sp.sigils@.len() implies key_parse((#[trigger] sp.sigils@[i]).0@)
        == Result::<SigilCoordinate, FromKeyError>::Ok(pairs[i].0) by {
        lemma_key_round_trip(pairs[i].0);
    }
    assert forall|i: int, j: int|
        0 <= i < j < sp.sigils@.len() implies key_coord((#[trigger] sp.sigils@[i]).0@)@
        != key_coord((#[trigger] sp.sigils@[j]).0@)@ by {
        assert(pairs[i].0@ != pairs[j].0@);
        assert(key_coord(sp.sigils@[i].0@) == pairs[i].0);
        assert(key_coord(sp.sigils@[j].0@) == pairs[j].0);
    }
    assert(parsed_distinct(sp.sigils@));
    assert forall|q: Puzzle| #[trigger] deserialized_form(sp, q) implies q.state_eq(&p) by {
        assert(q.sigils.pairs() =~= pairs);
    }
}

} // verus!
