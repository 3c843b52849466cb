//! The key-notation parser: compiles a human-readable binding string into
//! the key-event sequence it denotes.
//!
//! A binding string is one or more tokens with no separator. A token is a
//! single alphanumeric character, or a bracketed form `<MODS-KEY>` /
//! `<SPECIAL>`: `MODS` is one or more of `A`(lt) `C`(ontrol) `M`(eta)
//! `S`(hift); `KEY` is a special-key name, a decimal function-key number,
//! or a single alphanumeric character; `SPECIAL` is a special-key name or
//! a decimal function-key number. The special-key names are `BS`, `Del`,
//! `CR`, `Left`, `Right`, `Up`, `Down`, `Home`, `End`, `PageUp`,
//! `PageDown`, `Tab`, `Ins` and `Esc`.

use vstd::prelude::*;
use vstd::string::StrSliceExecFns;

use crate::keys::{KeyCode, KeyEvent, Modifiers, MOD_ALT, MOD_CONTROL, MOD_META, MOD_SHIFT};

verus! {

/// A malformed binding string, with the character offset at which no
/// further token could be read.
#[derive(Clone, Copy, Debug, PartialEq, Eq, Structural)]
pub struct ParseError {
    pub offset: usize,
}

/// Whether `c` is a Unicode alphanumeric character. Named, not written
/// out: the classification is the Unicode character database's.
pub uninterp spec fn unicode_alphanumeric(c: char) -> bool;

/// Relies on char::is_alphanumeric of std: whether `c` counts as Unicode
/// alphanumeric depends on the character alone.
#[verifier::external_body]
fn char_is_alphanumeric(c: char) -> (r: bool)
    ensures
        r == unicode_alphanumeric(c),
{
    c.is_alphanumeric()
}

/// Character `i` of `s` exists and is `c`.
pub open spec fn at(s: Seq<char>, i: int, c: char) -> bool {
    0 <= i < s.len() && s[i] == c
}

/// The special-key name at the start of `s`, with its length. The name
/// table is prefix-free, so at most one name can match.
pub open spec fn spec_special(s: Seq<char>) -> Option<(KeyCode, int)> {
    if at(s, 0, 'B') && at(s, 1, 'S') {
        Some((KeyCode::Backspace, 2))
    } else if at(s, 0, 'C') && at(s, 1, 'R') {
        Some((KeyCode::Enter, 2))
    } else if at(s, 0, 'D') && at(s, 1, 'e') && at(s, 2, 'l') {
        Some((KeyCode::Delete, 3))
    } else if at(s, 0, 'D') && at(s, 1, 'o') && at(s, 2, 'w') && at(s, 3, 'n') {
        Some((KeyCode::Down, 4))
    } else if at(s, 0, 'E') && at(s, 1, 'n') && at(s, 2, 'd') {
        Some((KeyCode::End, 3))
    } else if at(s, 0, 'E') && at(s, 1, 's') && at(s, 2, 'c') {
        Some((KeyCode::Escape, 3))
    } else if at(s, 0, 'H') && at(s, 1, 'o') && at(s, 2, 'm') && at(s, 3, 'e') {
        Some((KeyCode::Home, 4))
    } else if at(s, 0, 'I') && at(s, 1, 'n') && at(s, 2, 's') {
        Some((KeyCode::Insert, 3))
    } else if at(s, 0, 'L') && at(s, 1, 'e') && at(s, 2, 'f') && at(s, 3, 't') {
        Some((KeyCode::Left, 4))
    } else if at(s, 0, 'P') && at(s, 1, 'a') && at(s, 2, 'g') && at(s, 3, 'e') && at(s, 4, 'U')
        && at(s, 5, 'p') {
        Some((KeyCode::PageUp, 6))
    } else if at(s, 0, 'P') && at(s, 1, 'a') && at(s, 2, 'g') && at(s, 3, 'e') && at(s, 4, 'D')
        && at(s, 5, 'o') && at(s, 6, 'w') && at(s, 7, 'n') {
        Some((KeyCode::PageDown, 8))
    } else if at(s, 0, 'R') && at(s, 1, 'i') && at(s, 2, 'g') && at(s, 3, 'h') && at(s, 4, 't') {
        Some((KeyCode::Right, 5))
    } else if at(s, 0, 'T') && at(s, 1, 'a') && at(s, 2, 'b') {
        Some((KeyCode::Tab, 3))
    } else if at(s, 0, 'U') && at(s, 1, 'p') {
        Some((KeyCode::Up, 2))
    } else {
        None
    }
}

/// Whether `c` is an ASCII decimal digit.
pub open spec fn is_digit_char(c: char) -> bool {
    ||| c == '0'
    ||| c == '1'
    ||| c == '2'
    ||| c == '3'
    ||| c == '4'
    ||| c == '5'
    ||| c == '6'
    ||| c == '7'
    ||| c == '8'
    ||| c == '9'
}

/// The numeric value of digit `c`.
pub open spec fn digit_val(c: char) -> int {
    if c == '0' {
        0
    } else if c == '1' {
        1
    } else if c == '2' {
        2
    } else if c == '3' {
        3
    } else if c == '4' {
        4
    } else if c == '5' {
        5
    } else if c == '6' {
        6
    } else if c == '7' {
        7
    } else if c == '8' {
        8
    } else {
        9
    }
}

/// The length of the leading run of decimal digits of `s`.
pub open spec fn digit_run(s: Seq<char>) -> int
    decreases s.len(),
{
    if s.len() > 0 && is_digit_char(s[0]) {
        1 + digit_run(s.skip(1))
    } else {
        0
    }
}

/// The length of the leading run of modifier letters of `s`.
pub open spec fn mods_run(s: Seq<char>) -> int
    decreases s.len(),
{
    if s.len() > 0 && is_mod_char(s[0]) {
        1 + mods_run(s.skip(1))
    } else {
        0
    }
}

/// The value of the decimal numeral formed by the first `n` characters of
/// `s`.
pub open spec fn num_val(s: Seq<char>, n: int) -> int
    decreases n,
{
    if n <= 0 {
        0
    } else {
        num_val(s, n - 1) * 10 + digit_val(s[n - 1])
    }
}

/// The function-key number at the start of `s`: a non-empty run of
/// decimal digits whose value fits a key number, mapped to `F`.
pub open spec fn spec_number(s: Seq<char>) -> Option<(KeyCode, int)> {
    let n = digit_run(s);
    if n > 0 && num_val(s, n) <= 255 {
        Some((KeyCode::F(num_val(s, n) as u8), n))
    } else {
        None
    }
}

/// A bare bracketed key: a special-key name or a function-key number.
pub open spec fn spec_special_or_number(s: Seq<char>) -> Option<(KeyCode, int)> {
    match spec_special(s) {
        Some(x) => Some(x),
        None => spec_number(s),
    }
}

/// The key position after `MODS-`: a special-key name, a function-key
/// number, or a single alphanumeric character, in that order of
/// precedence.
pub open spec fn spec_keyspec(s: Seq<char>) -> Option<(KeyCode, int)> {
    match spec_special_or_number(s) {
        Some(x) => Some(x),
        None => if s.len() > 0 && unicode_alphanumeric(s[0]) {
            Some((KeyCode::Char(s[0]), 1))
        } else {
            None
        },
    }
}

/// Whether `c` names a modifier in key notation.
pub open spec fn is_mod_char(c: char) -> bool {
    c == 'A' || c == 'C' || c == 'M' || c == 'S'
}

/// The modifier bit named by `c`.
pub open spec fn mod_bit(c: char) -> u8 {
    if c == 'A' {
        MOD_ALT
    } else if c == 'C' {
        MOD_CONTROL
    } else if c == 'M' {
        MOD_META
    } else {
        MOD_SHIFT
    }
}

/// The union of the modifier bits named by the characters of `s`.
pub open spec fn mods_bits(s: Seq<char>) -> u8
    decreases s.len(),
{
    if s.len() == 0 {
        0
    } else {
        mods_bits(s.drop_last()) | mod_bit(s.last())
    }
}

/// The body of a bracketed token, between `<` and `>`: either one or more
/// modifier letters, a `-`, and a key, or a bare special key or number.
pub open spec fn spec_bracket_body(s: Seq<char>) -> Option<(KeyEvent, int)> {
    let mr = mods_run(s);
    if mr > 0 && at(s, mr, '-') {
        match spec_keyspec(s.skip(mr + 1)) {
            Some((code, n)) => Some(
                (KeyEvent { code, modifiers: Modifiers { bits: mods_bits(s.take(mr)) } }, mr + 1
                    + n),
            ),
            None => None,
        }
    } else {
        match spec_special_or_number(s) {
            Some((code, n)) => Some((KeyEvent { code, modifiers: Modifiers { bits: 0 } }, n)),
            None => None,
        }
    }
}

/// The token at the start of `s`: a single alphanumeric character, or a
/// bracketed form closed by `>`.
pub open spec fn spec_token(s: Seq<char>) -> Option<(KeyEvent, int)> {
    if s.len() == 0 {
        None
    } else if s[0] == '<' {
        match spec_bracket_body(s.skip(1)) {
            Some((ev, n)) => if at(s, 1 + n, '>') {
                Some((ev, n + 2))
            } else {
                None
            },
            None => None,
        }
    } else if unicode_alphanumeric(s[0]) {
        Some((KeyEvent { code: KeyCode::Char(s[0]), modifiers: Modifiers { bits: 0 } }, 1))
    } else {
        None
    }
}

/// The key events denoted by `s`: the tokens read greedily to the end, or
/// nothing if at some point no token can be read.
pub open spec fn spec_keys(s: Seq<char>) -> Option<Seq<KeyEvent>>
    decreases s.len(),
{
    if s.len() == 0 {
        Some(Seq::empty())
    } else {
        match spec_token(s) {
            None => None,
            Some((ev, n)) => if 1 <= n <= s.len() {
                match spec_keys(s.skip(n)) {
                    None => None,
                    Some(rest) => Some(seq![ev] + rest),
                }
            } else {
                None
            },
        }
    }
}

/// The character offset at which reading tokens from `s` first fails,
/// counting from `base`.
pub open spec fn spec_fail_offset(s: Seq<char>, base: int) -> int
    decreases s.len(),
{
    if s.len() == 0 {
        base
    } else {
        match spec_token(s) {
            None => base,
            Some((ev, n)) => if 1 <= n <= s.len() {
                spec_fail_offset(s.skip(n), base + n)
            } else {
                base
            },
        }
    }
}

/// The leading digit run is pinned down by what holds of each position.
proof fn lemma_digit_run_is(s: Seq<char>, n: int)
    requires
        0 <= n <= s.len(),
        forall|j: int| 0 <= j < n ==> is_digit_char(#[trigger] s[j]),
        n < s.len() ==> !is_digit_char(s[n]),
    ensures
        digit_run(s) == n,
    decreases s.len(),
{
    if n == 0 {
    } else {
        let t = s.skip(1);
        assert forall|j: int| 0 <= j < n - 1 implies is_digit_char(#[trigger] t[j]) by {
            assert(t[j] == s[j + 1]);
        }
        if n - 1 < t.len() {
            assert(t[n - 1] == s[n]);
        }
        lemma_digit_run_is(t, n - 1);
    }
}

/// The leading modifier run is pinned down by what holds of each position.
proof fn lemma_mods_run_is(s: Seq<char>, n: int)
    requires
        0 <= n <= s.len(),
        forall|j: int| 0 <= j < n ==> is_mod_char(#[trigger] s[j]),
        n < s.len() ==> !is_mod_char(s[n]),
    ensures
        mods_run(s) == n,
    decreases s.len(),
{
    if n == 0 {
    } else {
        let t = s.skip(1);
        assert forall|j: int| 0 <= j < n - 1 implies is_mod_char(#[trigger] t[j]) by {
            assert(t[j] == s[j + 1]);
        }
        if n - 1 < t.len() {
            assert(t[n - 1] == s[n]);
        }
        lemma_mods_run_is(t, n - 1);
    }
}

/// A numeral's value is monotone in the number of digits read.
proof fn lemma_num_val_mono(s: Seq<char>, j: int, n: int)
    requires
        0 <= j <= n <= s.len(),
        forall|k: int| 0 <= k < n ==> is_digit_char(#[trigger] s[k]),
    ensures
        0 <= num_val(s, j) <= num_val(s, n),
    decreases n - j,
{
    if j == n {
        lemma_num_val_nonneg(s, j);
    } else {
        lemma_num_val_mono(s, j, n - 1);
        assert(num_val(s, n) == num_val(s, n - 1) * 10 + digit_val(s[n - 1]));
        assert(num_val(s, n - 1) * 10 >= num_val(s, n - 1)) by (nonlinear_arith)
            requires
                num_val(s, n - 1) >= 0,
        ;
    }
}

proof fn lemma_num_val_nonneg(s: Seq<char>, n: int)
    requires
        0 <= n <= s.len(),
        forall|k: int| 0 <= k < n ==> is_digit_char(#[trigger] s[k]),
    ensures
        num_val(s, n) >= 0,
    decreases n,
{
    if n > 0 {
        lemma_num_val_nonneg(s, n - 1);
        assert(num_val(s, n - 1) * 10 >= 0) by (nonlinear_arith)
            requires
                num_val(s, n - 1) >= 0,
        ;
    }
}

/// Whether `c` is an ASCII decimal digit.
fn is_digit(c: char) -> (r: bool)
    ensures
        r == is_digit_char(c),
{
    c == '0' || c == '1' || c == '2' || c == '3' || c == '4' || c == '5' || c == '6' || c == '7'
        || c == '8' || c == '9'
}

/// The numeric value of digit `c`.
fn digit_value(c: char) -> (r: u32)
    ensures
        r as int == digit_val(c),
{
    if c == '0' {
        0
    } else if c == '1' {
        1
    } else if c == '2' {
        2
    } else if c == '3' {
        3
    } else if c == '4' {
        4
    } else if c == '5' {
        5
    } else if c == '6' {
        6
    } else if c == '7' {
        7
    } else if c == '8' {
        8
    } else {
        9
    }
}

/// Reads the special-key name at position `pos`.
fn parse_special(v: &Vec<char>, pos: usize) -> (r: Option<(KeyCode, usize)>)
    requires
        pos <= v@.len(),
    ensures
        ({
            let s = v@.skip(pos as int);
            match r {
                Some((code, n)) => spec_special(s) == Some((code, n as int)) && pos + n
                    <= v@.len(),
                None => spec_special(s) is None,
            }
        }),
{
    let rem = v.len() - pos;
    if rem >= 2 && v[pos] == 'B' && v[pos + 1] == 'S' {
        Some((KeyCode::Backspace, 2))
    } else if rem >= 2 && v[pos] == 'C' && v[pos + 1] == 'R' {
        Some((KeyCode::Enter, 2))
    } else if rem >= 3 && v[pos] == 'D' && v[pos + 1] == 'e' && v[pos + 2] == 'l' {
        Some((KeyCode::Delete, 3))
    } else if rem >= 4 && v[pos] == 'D' && v[pos + 1] == 'o' && v[pos + 2] == 'w' && v[pos + 3]
        == 'n' {
        Some((KeyCode::Down, 4))
    } else if rem >= 3 && v[pos] == 'E' && v[pos + 1] == 'n' && v[pos + 2] == 'd' {
        Some((KeyCode::End, 3))
    } else if rem >= 3 && v[pos] == 'E' && v[pos + 1] == 's' && v[pos + 2] == 'c' {
        Some((KeyCode::Escape, 3))
    } else if rem >= 4 && v[pos] == 'H' && v[pos + 1] == 'o' && v[pos + 2] == 'm' && v[pos + 3]
        == 'e' {
        Some((KeyCode::Home, 4))
    } else if rem >= 3 && v[pos] == 'I' && v[pos + 1] == 'n' && v[pos + 2] == 's' {
        Some((KeyCode::Insert, 3))
    } else if rem >= 4 && v[pos] == 'L' && v[pos + 1] == 'e' && v[pos + 2] == 'f' && v[pos + 3]
        == 't' {
        Some((KeyCode::Left, 4))
    } else if rem >= 6 && v[pos] == 'P' && v[pos + 1] == 'a' && v[pos + 2] == 'g' && v[pos + 3]
        == 'e' && v[pos + 4] == 'U' && v[pos + 5] == 'p' {
        Some((KeyCode::PageUp, 6))
    } else if rem >= 8 && v[pos] == 'P' && v[pos + 1] == 'a' && v[pos + 2] == 'g' && v[pos + 3]
        == 'e' && v[pos + 4] == 'D' && v[pos + 5] == 'o' && v[pos + 6] == 'w' && v[pos + 7]
        == 'n' {
        Some((KeyCode::PageDown, 8))
    } else if rem >= 5 && v[pos] == 'R' && v[pos + 1] == 'i' && v[pos + 2] == 'g' && v[pos + 3]
        == 'h' && v[pos + 4] == 't' {
        Some((KeyCode::Right, 5))
    } else if rem >= 3 && v[pos] == 'T' && v[pos + 1] == 'a' && v[pos + 2] == 'b' {
        Some((KeyCode::Tab, 3))
    } else if rem >= 2 && v[pos] == 'U' && v[pos + 1] == 'p' {
        Some((KeyCode::Up, 2))
    } else {
        None
    }
}

/// Reads the function-key number at position `pos`.
fn parse_number(v: &Vec<char>, pos: usize) -> (r: Option<(KeyCode, usize)>)
    requires
        pos <= v@.len(),
    ensures
        ({
            let s = v@.skip(pos as int);
            match r {
                Some((code, n)) => spec_number(s) == Some((code, n as int)) && pos + n <= v@.len(),
                None => spec_number(s) is None,
            }
        }),
{
    let ghost s = v@.skip(pos as int);
    let n = v.len();
    let mut i: usize = pos;
    while i < n && is_digit(v[i])
        invariant
            pos <= i <= n,
            n == v@.len(),
            forall|j: int| pos <= j < i ==> is_digit_char(#[trigger] v@[j]),
        decreases n - i,
    {
        i += 1;
    }
    let run = i - pos;
    proof {
        assert forall|j: int| 0 <= j < run implies is_digit_char(#[trigger] s[j]) by {
            assert(s[j] == v@[pos + j]);
        }
        if run < s.len() {
            assert(s[run as int] == v@[i as int]);
        }
        lemma_digit_run_is(s, run as int);
    }
    if run == 0 {
        return None;
    }
    let mut val: u32 = 0;
    let mut k: usize = 0;
    while k < run
        invariant
            0 <= k <= run,
            pos + run <= n,
            n == v@.len(),
            s == v@.skip(pos as int),
            run > 0,
            digit_run(s) == run,
            forall|j: int| 0 <= j < run ==> is_digit_char(#[trigger] s[j]),
            val as int == num_val(s, k as int),
            val <= 255,
        decreases run - k,
    {
        proof {
            assert(s[k as int] == v@[pos + k]);
        }
        let d = digit_value(v[pos + k]);
        let next = val * 10 + d;
        proof {
            assert(next as int == num_val(s, k + 1));
        }
        if next > 255 {
            proof {
                lemma_num_val_mono(s, k + 1, run as int);
            }
            return None;
        }
        val = next;
        k += 1;
    }
    Some((KeyCode::F(val as u8), run))
}

/// Reads a bare bracketed key at position `pos`: a special-key name or a
/// function-key number.
fn parse_special_or_number(v: &Vec<char>, pos: usize) -> (r: Option<(KeyCode, usize)>)
    requires
        pos <= v@.len(),
    ensures
        ({
            let s = v@.skip(pos as int);
            match r {
                Some((code, n)) => spec_special_or_number(s) == Some((code, n as int)) && pos + n
                    <= v@.len(),
                None => spec_special_or_number(s) is None,
            }
        }),
{
    match parse_special(v, pos) {
        Some(x) => Some(x),
        None => parse_number(v, pos),
    }
}

/// Reads the key after `MODS-` at position `pos`.
fn parse_keyspec(v: &Vec<char>, pos: usize) -> (r: Option<(KeyCode, usize)>)
    requires
        pos <= v@.len(),
    ensures
        ({
            let s = v@.skip(pos as int);
            match r {
                Some((code, n)) => spec_keyspec(s) == Some((code, n as int)) && pos + n
                    <= v@.len(),
                None => spec_keyspec(s) is None,
            }
        }),
{
    match parse_special_or_number(v, pos) {
        Some(x) => Some(x),
        None => {
            if pos < v.len() && char_is_alphanumeric(v[pos]) {
                proof {
                    assert(v@.skip(pos as int)[0] == v@[pos as int]);
                }
                Some((KeyCode::Char(v[pos]), 1))
            } else {
                None
            }
        },
    }
}

/// Reads the body of a bracketed token at position `pos`.
fn parse_bracket_body(v: &Vec<char>, pos: usize) -> (r: Option<(KeyEvent, usize)>)
    requires
        pos <= v@.len(),
    ensures
        ({
            let s = v@.skip(pos as int);
            match r {
                Some((ev, n)) => spec_bracket_body(s) == Some((ev, n as int)) && pos + n
                    <= v@.len(),
                None => spec_bracket_body(s) is None,
            }
        }),
{
    let ghost s = v@.skip(pos as int);
    let n = v.len();
    let mut i: usize = pos;
    while i < n && (v[i] == 'A' || v[i] == 'C' || v[i] == 'M' || v[i] == 'S')
        invariant
            pos <= i <= n,
            n == v@.len(),
            forall|j: int| pos <= j < i ==> is_mod_char(#[trigger] v@[j]),
        decreases n - i,
    {
        i += 1;
    }
    let mr = i - pos;
    proof {
        assert forall|j: int| 0 <= j < mr implies is_mod_char(#[trigger] s[j]) by {
            assert(s[j] == v@[pos + j]);
        }
        if mr < s.len() {
            assert(s[mr as int] == v@[i as int]);
        }
        lemma_mods_run_is(s, mr as int);
    }
    if mr > 0 && i < n && v[i] == '-' {
        proof {
            assert(s[mr as int] == v@[i as int]);
            assert(at(s, mr as int, '-'));
        }
        let mut bits: u8 = 0;
        let mut k: usize = 0;
        while k < mr
            invariant
                0 <= k <= mr,
                pos + mr <= n,
                n == v@.len(),
                s == v@.skip(pos as int),
                forall|j: int| 0 <= j < mr ==> is_mod_char(#[trigger] s[j]),
                bits == mods_bits(s.take(k as int)),
            decreases mr - k,
        {
            proof {
                assert(s[k as int] == v@[pos + k]);
                assert(s.take(k + 1).drop_last() =~= s.take(k as int));
                assert(s.take(k + 1).last() == s[k as int]);
            }
            let c = v[pos + k];
            let b: u8 = if c == 'A' {
                MOD_ALT
            } else if c == 'C' {
                MOD_CONTROL
            } else if c == 'M' {
                MOD_META
            } else {
                MOD_SHIFT
            };
            bits = bits | b;
            k += 1;
        }
        match parse_keyspec(v, pos + mr + 1) {
            Some((code, kn)) => {
                proof {
                    assert(v@.skip(pos + mr + 1) =~= s.skip(mr + 1));
                }
                Some((KeyEvent { code, modifiers: Modifiers { bits } }, mr + 1 + kn))
            },
            None => {
                proof {
                    assert(v@.skip(pos + mr + 1) =~= s.skip(mr + 1));
                }
                None
            },
        }
    } else {
        proof {
            if mr > 0 {
                assert(!at(s, mr as int, '-')) by {
                    if mr < s.len() {
                        assert(s[mr as int] == v@[i as int]);
                    }
                }
            }
        }
        match parse_special_or_number(v, pos) {
            Some((code, kn)) => Some((KeyEvent::plain(code), kn)),
            None => None,
        }
    }
}

/// Reads the token at position `pos`.
fn parse_token(v: &Vec<char>, pos: usize) -> (r: Option<(KeyEvent, usize)>)
    requires
        pos <= v@.len(),
    ensures
        ({
            let s = v@.skip(pos as int);
            match r {
                Some((ev, n)) => spec_token(s) == Some((ev, n as int)) && 1 <= n && pos + n
                    <= v@.len(),
                None => spec_token(s) is None,
            }
        }),
{
    let ghost s = v@.skip(pos as int);
    if pos >= v.len() {
        return None;
    }
    proof {
        assert(s[0] == v@[pos as int]);
    }
    if v[pos] == '<' {
        proof {
            assert(v@.skip(pos + 1) =~= s.skip(1));
        }
        match parse_bracket_body(v, pos + 1) {
            Some((ev, bn)) => {
                if pos + 1 + bn < v.len() && v[pos + 1 + bn] == '>' {
                    proof {
                        assert(s[1 + bn] == v@[pos + 1 + bn]);
                        assert(at(s, 1 + bn as int, '>'));
                    }
                    Some((ev, bn + 2))
                } else {
                    proof {
                        assert(!at(s, 1 + bn as int, '>')) by {
                            if 1 + bn < s.len() {
                                assert(s[1 + bn] == v@[pos + 1 + bn]);
                            }
                        }
                    }
                    None
                }
            },
            None => None,
        }
    } else if char_is_alphanumeric(v[pos]) {
        Some((KeyEvent { code: KeyCode::Char(v[pos]), modifiers: Modifiers::empty() }, 1))
    } else {
        None
    }
}

/// Copies the characters of `input` out one by one.
fn str_to_chars(input: &str) -> (r: Vec<char>)
    ensures
        r@ == input@,
{
    let n = input.unicode_len();
    let mut r: Vec<char> = Vec::new();
    let mut i: usize = 0;
    while i < n
        invariant
            i <= n,
            n == input@.len(),
            r@.len() == i,
            forall|j: int| 0 <= j < i ==> r@[j] == input@[j],
        decreases n - i,
    {
        r.push(input.get_char(i));
        i += 1;
    }
    proof {
        assert(r@ =~= input@);
    }
    r
}

/// Parses a whole binding string into the key events it denotes.
///
/// Returns `Ok` exactly when the string is non-empty and consists of
/// well-formed tokens to its end; otherwise the error carries the offset
/// of the first character from which no token could be read.
pub fn parse_key_sequence(input: &str) -> (r: Result<Vec<KeyEvent>, ParseError>)
    ensures
        match r {
            Ok(keys) => input@.len() > 0 && spec_keys(input@) == Some(keys@),
            Err(e) => {
                &&& (input@.len() == 0 || spec_keys(input@) is None)
                &&& e.offset == spec_fail_offset(input@, 0)
            },
        },
{
    let chars = str_to_chars(input);
    let n = chars.len();
    if n == 0 {
        return Err(ParseError { offset: 0 });
    }
    let mut pos: usize = 0;
    let mut out: Vec<KeyEvent> = Vec::new();
    proof {
        assert(chars@.skip(0) =~= chars@);
        match spec_keys(chars@) {
            Some(rest) => {
                assert(Seq::<KeyEvent>::empty() + rest =~= rest);
            },
            None => {},
        }
    }
    while pos < n
        invariant
            0 <= pos <= n,
            n == chars@.len(),
            chars@ == input@,
            (match spec_keys(chars@.skip(pos as int)) {
                Some(rest) => spec_keys(chars@) == Some(out@ + rest),
                None => spec_keys(chars@) is None,
            }),
            spec_keys(chars@.skip(pos as int)) is None ==> spec_fail_offset(chars@, 0)
                == spec_fail_offset(chars@.skip(pos as int), pos as int),
        decreases n - pos,
    {
        let ghost s = chars@.skip(pos as int);
        let ghost pos0 = pos as int;
        let ghost out0 = out@;
        match parse_token(&chars, pos) {
            Some((ev, tn)) => {
                proof {
                    assert(s.skip(tn as int) =~= chars@.skip(pos0 + tn));
                }
                out.push(ev);
                pos += tn;
                proof {
                    let s2 = chars@.skip(pos as int);
                    assert(s.skip(tn as int) == s2);
                    match spec_keys(s2) {
                        Some(rest2) => {
                            assert(spec_keys(s) == Some(seq![ev] + rest2));
                            assert(out0 + (seq![ev] + rest2) =~= out@ + rest2);
                        },
                        None => {
                            assert(spec_keys(s) is None);
                            assert(spec_fail_offset(s, pos0) == spec_fail_offset(s2, pos as int));
                        },
                    }
                }
            },
            None => {
                proof {
                    assert(spec_keys(s) is None);
                    assert(spec_fail_offset(s, pos0) == pos0);
                }
                return Err(ParseError { offset: pos });
            },
        }
    }
    proof {
        assert(chars@.skip(n as int) =~= Seq::<char>::empty());
        assert(spec_keys(chars@.skip(n as int)) == Some(Seq::<KeyEvent>::empty()));
        assert(out@ + Seq::<KeyEvent>::empty() =~= out@);
    }
    Ok(out)
}

} // verus!
