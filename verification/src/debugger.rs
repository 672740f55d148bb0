//! The line-based debugger: a breakpoint set keyed by program-counter
//! address, and the parser that turns one command line into a `DebugAction`
//! for the driving loop to perform against the introspection interface.

use vstd::prelude::*;
use std::collections::HashSet;
use crate::vm::CpuState;

verus! {

broadcast use vstd::std_specs::hash::group_hash_axioms;

/// What the driving loop should do next with the machine.
#[derive(Clone, Copy, Debug, PartialEq, Eq, Structural)]
pub enum DebugAction {
    Quit,
    Step,
    Continue,
    ShowRegisters,
    ShowMemory(u16, usize),
    ShowBreakpoints,
    Help,
}

/// A whitespace separator between command words.
pub open spec fn is_ws(c: char) -> bool {
    c == ' ' || c == '\t' || c == '\n' || c == '\r' || c == '\u{b}' || c == '\u{c}'
}

/// The length of the leading run of non-whitespace characters.
pub open spec fn run_len(cs: Seq<char>) -> nat
    decreases cs.len(),
{
    if cs.len() == 0 || is_ws(cs[0]) {
        0
    } else {
        1 + run_len(cs.drop_first())
    }
}

/// The leading non-whitespace run is never longer than the text.
proof fn lemma_run_len_le(cs: Seq<char>)
    ensures
        run_len(cs) <= cs.len(),
    decreases cs.len(),
{
    if cs.len() > 0 && !is_ws(cs[0]) {
        lemma_run_len_le(cs.drop_first());
    }
}

/// The command words of a line: the maximal non-whitespace runs, in order.
pub open spec fn spec_tokens(cs: Seq<char>) -> Seq<Seq<char>>
    decreases cs.len(),
    via spec_tokens_decreases
{
    if cs.len() == 0 {
        Seq::empty()
    } else if is_ws(cs[0]) {
        spec_tokens(cs.drop_first())
    } else {
        let k = run_len(cs) as int;
        seq![cs.subrange(0, k)] + spec_tokens(cs.subrange(k, cs.len() as int))
    }
}

#[via_fn]
proof fn spec_tokens_decreases(cs: Seq<char>) {
    if cs.len() > 0 && !is_ws(cs[0]) {
        lemma_run_len_le(cs);
    }
}

/// The value of one hexadecimal digit, upper or lower case.
pub open spec fn hex_digit_val(c: char) -> Option<u8> {
    let v = c as int;
    if 48 <= v <= 57 {
        Some(((v - 48) as u8))
    } else if 97 <= v <= 102 {
        Some(((v - 87) as u8))
    } else if 65 <= v <= 70 {
        Some(((v - 55) as u8))
    } else {
        None
    }
}

/// The value of one decimal digit.
pub open spec fn dec_digit_val(c: char) -> Option<u8> {
    let v = c as int;
    if 48 <= v <= 57 {
        Some(((v - 48) as u8))
    } else {
        None
    }
}

/// The unbounded value of a non-empty all-hexadecimal digit string; `None`
/// when the string is empty or any character is no hexadecimal digit.
pub open spec fn hex_digits_val(t: Seq<char>) -> Option<int>
    decreases t.len(),
{
    if t.len() == 0 {
        None
    } else if t.len() == 1 {
        match hex_digit_val(t[0]) {
            Some(d) => Some(d as int),
            None => None,
        }
    } else {
        match (hex_digits_val(t.drop_last()), hex_digit_val(t.last())) {
            (Some(v), Some(d)) => Some(v * 16 + d),
            _ => None,
        }
    }
}

/// The unbounded value of a non-empty all-decimal digit string.
pub open spec fn dec_digits_val(t: Seq<char>) -> Option<int>
    decreases t.len(),
{
    if t.len() == 0 {
        None
    } else if t.len() == 1 {
        match dec_digit_val(t[0]) {
            Some(d) => Some(d as int),
            None => None,
        }
    } else {
        match (dec_digits_val(t.drop_last()), dec_digit_val(t.last())) {
            (Some(v), Some(d)) => Some(v * 10 + d),
            _ => None,
        }
    }
}

/// The word with every leading repetition of the prefix `0x` removed.
pub open spec fn strip_hex_prefix(t: Seq<char>) -> Seq<char>
    decreases t.len(),
{
    if t.len() >= 2 && t[0] == '0' && t[1] == 'x' {
        strip_hex_prefix(t.subrange(2, t.len() as int))
    } else {
        t
    }
}

/// An address word: leading `0x` repetitions removed, an optional leading
/// plus sign, then one or more hexadecimal digits whose value fits a u16.
pub open spec fn spec_parse_addr(t: Seq<char>) -> Option<u16> {
    let s = strip_hex_prefix(t);
    let body = if s.len() >= 1 && s[0] == '+' {
        s.drop_first()
    } else {
        s
    };
    match hex_digits_val(body) {
        Some(v) => if v <= 0xFFFF {
            Some(v as u16)
        } else {
            None
        },
        None => None,
    }
}

/// A length word: an optional leading plus sign, then one or more decimal
/// digits whose value fits a usize.
pub open spec fn spec_parse_len(t: Seq<char>) -> Option<usize> {
    let body = if t.len() >= 1 && t[0] == '+' {
        t.drop_first()
    } else {
        t
    };
    match dec_digits_val(body) {
        Some(v) => if v <= usize::MAX {
            Some(v as usize)
        } else {
            None
        },
        None => None,
    }
}

/// What one command line means: the action it asks for, or the error
/// message it earns. An empty line just continues.
pub open spec fn spec_parse(cs: Seq<char>) -> Result<DebugAction, Seq<char>> {
    let toks = spec_tokens(cs);
    if toks.len() == 0 {
        Ok(DebugAction::Continue)
    } else {
        let t0 = toks[0];
        if t0 == "q"@ || t0 == "quit"@ {
            Ok(DebugAction::Quit)
        } else if t0 == "s"@ || t0 == "step"@ {
            Ok(DebugAction::Step)
        } else if t0 == "c"@ || t0 == "continue"@ {
            Ok(DebugAction::Continue)
        } else if t0 == "i"@ || t0 == "info"@ {
            spec_parse_info(toks)
        } else if t0 == "b"@ || t0 == "break"@ {
            if toks.len() != 2 {
                Err("Usage: break <addr>"@)
            } else {
                match spec_parse_addr(toks[1]) {
                    Some(_) => Ok(DebugAction::ShowBreakpoints),
                    None => Err("Invalid address: "@ + strip_hex_prefix(toks[1])),
                }
            }
        } else if t0 == "clear"@ {
            if toks.len() != 2 {
                Err("Usage: clear <addr>"@)
            } else {
                match spec_parse_addr(toks[1]) {
                    Some(_) => Ok(DebugAction::ShowBreakpoints),
                    None => Err("Invalid address: "@ + strip_hex_prefix(toks[1])),
                }
            }
        } else if t0 == "help"@ || t0 == "h"@ {
            Ok(DebugAction::Help)
        } else {
            Err("Unknown command: "@ + t0)
        }
    }
}

/// The breakpoint set after one command line: `break` with a valid address
/// inserts it, `clear` with a valid address removes it, everything else
/// leaves the set alone.
pub open spec fn spec_breaks_after(bps: Set<u16>, cs: Seq<char>) -> Set<u16> {
    let toks = spec_tokens(cs);
    if toks.len() == 2 && (toks[0] == "b"@ || toks[0] == "break"@) {
        match spec_parse_addr(toks[1]) {
            Some(a) => bps.insert(a),
            None => bps,
        }
    } else if toks.len() == 2 && toks[0] == "clear"@ {
        match spec_parse_addr(toks[1]) {
            Some(a) => bps.remove(a),
            None => bps,
        }
    } else {
        bps
    }
}

/// The `info` subcommands.
pub open spec fn spec_parse_info(toks: Seq<Seq<char>>) -> Result<DebugAction, Seq<char>> {
    if toks.len() < 2 {
        Err("Usage: info <registers|memory|breakpoints>"@)
    } else {
        let t1 = toks[1];
        if t1 == "r"@ || t1 == "registers"@ {
            Ok(DebugAction::ShowRegisters)
        } else if t1 == "m"@ || t1 == "memory"@ {
            if toks.len() != 4 {
                Err("Usage: info memory <addr> <len>"@)
            } else {
                match spec_parse_addr(toks[2]) {
                    None => Err("Invalid address: "@ + strip_hex_prefix(toks[2])),
                    Some(a) => match spec_parse_len(toks[3]) {
                        None => Err("Invalid length"@),
                        Some(l) => Ok(DebugAction::ShowMemory(a, l)),
                    },
                }
            }
        } else if t1 == "b"@ || t1 == "breakpoints"@ {
            Ok(DebugAction::ShowBreakpoints)
        } else {
            Err("Unknown info command. Try: registers, memory, breakpoints"@)
        }
    }
}

/// A word with a non-hexadecimal character anywhere has no value.
proof fn lemma_hex_digits_invalid(t: Seq<char>, k: int)
    requires
        0 <= k < t.len(),
        hex_digit_val(t[k]) is None,
    ensures
        hex_digits_val(t) is None,
    decreases t.len(),
{
    if t.len() > 1 && k < t.len() - 1 {
        lemma_hex_digits_invalid(t.drop_last(), k);
    }
}

/// A word with a non-decimal character anywhere has no value.
proof fn lemma_dec_digits_invalid(t: Seq<char>, k: int)
    requires
        0 <= k < t.len(),
        dec_digit_val(t[k]) is None,
    ensures
        dec_digits_val(t) is None,
    decreases t.len(),
{
    if t.len() > 1 && k < t.len() - 1 {
        lemma_dec_digits_invalid(t.drop_last(), k);
    }
}

/// Whether `c` is a command-word separator.
fn is_ws_exec(c: char) -> (r: bool)
    ensures
        r == is_ws(c),
{
    c == ' ' || c == '\t' || c == '\n' || c == '\r' || c == '\u{b}' || c == '\u{c}'
}

/// The run of whitespace and words at or after character `i`, as index
/// pairs into the line.
#[verifier::loop_isolation(false)]
fn tokenize_from(s: &str, i: usize, n: usize) -> (r: Vec<(usize, usize)>)
    requires
        n == s@.len(),
        i <= n,
    ensures
        r@.map_values(|p: (usize, usize)| s@.subrange(p.0 as int, p.1 as int)) == spec_tokens(
            s@.subrange(i as int, n as int),
        ),
        forall|t: int| 0 <= t < r@.len() ==> i <= (#[trigger] r@[t]).0 < r@[t].1 <= n,
    decreases n - i,
{
    if i == n {
        let r: Vec<(usize, usize)> = Vec::new();
        proof {
            assert(r@.map_values(|p: (usize, usize)| s@.subrange(p.0 as int, p.1 as int))
                =~= spec_tokens(s@.subrange(i as int, n as int)));
        }
        r
    } else if is_ws_exec(s.get_char(i)) {
        let r = tokenize_from(s, i + 1, n);
        proof {
            assert(s@.subrange(i as int, n as int).drop_first() =~= s@.subrange(
                i as int + 1,
                n as int,
            ));
        }
        r
    } else {
        let mut j: usize = i + 1;
        while j < n && !is_ws_exec(s.get_char(j))
            invariant
                i < j <= n,
                forall|t: int| i <= t < j ==> !is_ws(s@[t]),
            decreases n - j,
        {
            j += 1;
        }
        let mut rest = tokenize_from(s, j, n);
        let ghost rest0 = rest@;
        let mut r: Vec<(usize, usize)> = Vec::new();
        r.push((i, j));
        r.append(&mut rest);
        proof {
            let cs = s@.subrange(i as int, n as int);
            assert forall|t: int| 0 <= t < j - i implies !is_ws(cs[t]) by {
                assert(cs[t] == s@[i + t]);
            }
            lemma_run_len(cs, j - i);
            assert(cs.subrange(0, j - i) =~= s@.subrange(i as int, j as int));
            assert(cs.subrange(j - i, cs.len() as int) =~= s@.subrange(j as int, n as int));
            assert(r@ =~= seq![(i, j)] + rest0);
            assert(r@.map_values(|p: (usize, usize)| s@.subrange(p.0 as int, p.1 as int)) =~= seq![
                s@.subrange(i as int, j as int),
            ] + rest0.map_values(|p: (usize, usize)| s@.subrange(p.0 as int, p.1 as int)));
        }
        r
    }
}

/// A text whose first `j` characters are no separators, and whose `j`-th
/// either is one or is the end, has a leading run of exactly `j`.
proof fn lemma_run_len(cs: Seq<char>, j: int)
    requires
        0 <= j <= cs.len(),
        forall|t: int| 0 <= t < j ==> !is_ws(#[trigger] cs[t]),
        j == cs.len() || is_ws(cs[j]),
    ensures
        run_len(cs) == j,
    decreases cs.len(),
{
    if j > 0 {
        let d = cs.drop_first();
        assert forall|t: int| 0 <= t < j - 1 implies !is_ws(#[trigger] d[t]) by {
            assert(d[t] == cs[t + 1]);
        }
        lemma_run_len(d, j - 1);
    }
}

/// The command words of a line, as index pairs into it.
fn tokenize(s: &str) -> (r: Vec<(usize, usize)>)
    ensures
        r@.map_values(|p: (usize, usize)| s@.subrange(p.0 as int, p.1 as int)) == spec_tokens(s@),
        forall|t: int| 0 <= t < r@.len() ==> 0 <= (#[trigger] r@[t]).0 < r@[t].1 <= s@.len(),
{
    let n = s.unicode_len();
    let r = tokenize_from(s, 0, n);
    proof {
        assert(s@.subrange(0, n as int) =~= s@);
    }
    r
}

/// Whether the word at `p` in `s` is exactly the text `lit`.
fn tok_is(s: &str, p: (usize, usize), lit: &str) -> (r: bool)
    requires
        p.0 <= p.1 <= s@.len(),
    ensures
        r == (s@.subrange(p.0 as int, p.1 as int) == lit@),
{
    let n = lit.unicode_len();
    if p.1 - p.0 != n {
        proof {
            assert(s@.subrange(p.0 as int, p.1 as int).len() != lit@.len());
        }
        return false;
    }
    let mut k: usize = 0;
    while k < n
        invariant
            p.0 <= p.1 <= s@.len(),
            n == lit@.len(),
            p.1 - p.0 == n,
            k <= n,
            forall|t: int| 0 <= t < k ==> s@.subrange(p.0 as int, p.1 as int)[t] == lit@[t],
        decreases n - k,
    {
        let a = s.get_char(p.0 + k);
        let b = lit.get_char(k);
        if a != b {
            proof {
                assert(s@.subrange(p.0 as int, p.1 as int)[k as int] != lit@[k as int]);
            }
            return false;
        }
        k += 1;
    }
    proof {
        assert(s@.subrange(p.0 as int, p.1 as int) =~= lit@);
    }
    true
}

/// The value of one hexadecimal digit character, if it is one.
fn hex_val(c: char) -> (r: Option<u8>)
    ensures
        r == hex_digit_val(c),
{
    let v = c as u32;
    if v >= 48 && v <= 57 {
        Some((v - 48) as u8)
    } else if v >= 97 && v <= 102 {
        Some((v - 87) as u8)
    } else if v >= 65 && v <= 70 {
        Some((v - 55) as u8)
    } else {
        None
    }
}

/// The value of one decimal digit character, if it is one.
fn dec_val(c: char) -> (r: Option<u8>)
    ensures
        r == dec_digit_val(c),
{
    let v = c as u32;
    if v >= 48 && v <= 57 {
        Some((v - 48) as u8)
    } else {
        None
    }
}

/// Parses a whole word as a 16-bit hexadecimal address.
pub fn parse_addr(s: &str) -> (r: Result<u16, String>)
    ensures
        match spec_parse_addr(s@) {
            Some(v) => r == Ok::<u16, String>(v),
            None => r is Err && r.unwrap_err()@ == "Invalid address: "@ + strip_hex_prefix(s@),
        },
{
    let n = s.unicode_len();
    let r = parse_addr_at(s, (0, n));
    proof {
        assert(s@.subrange(0, n as int) =~= s@);
    }
    r
}

/// Parses the word at `p` in `s` as a 16-bit hexadecimal address: leading
/// `0x` repetitions and an optional plus sign are accepted; an empty rest,
/// a non-digit, or a value beyond 16 bits earn the error message.
#[verifier::loop_isolation(false)]
fn parse_addr_at(s: &str, p: (usize, usize)) -> (r: Result<u16, String>)
    requires
        p.0 <= p.1 <= s@.len(),
    ensures
        ({
            let t = s@.subrange(p.0 as int, p.1 as int);
            match spec_parse_addr(t) {
                Some(v) => r == Ok::<u16, String>(v),
                None => r is Err && r.unwrap_err()@ == "Invalid address: "@ + strip_hex_prefix(t),
            }
        }),
{
    let ghost t = s@.subrange(p.0 as int, p.1 as int);
    let mut a: usize = p.0;
    while p.1 - a >= 2 && s.get_char(a) == '0' && s.get_char(a + 1) == 'x'
        invariant
            p.0 <= a <= p.1,
            strip_hex_prefix(t) == strip_hex_prefix(s@.subrange(a as int, p.1 as int)),
        decreases p.1 - a,
    {
        proof {
            assert(s@.subrange(a as int, p.1 as int).subrange(2, p.1 - a as int) =~= s@.subrange(
                a as int + 2,
                p.1 as int,
            ));
        }
        a += 2;
    }
    proof {
        assert(strip_hex_prefix(t) =~= s@.subrange(a as int, p.1 as int));
    }
    let err_msg_base = "Invalid address: ";
    let mut b: usize = a;
    if b < p.1 && s.get_char(b) == '+' {
        b += 1;
    }
    let ghost body = if strip_hex_prefix(t).len() >= 1 && strip_hex_prefix(t)[0] == '+' {
        strip_hex_prefix(t).drop_first()
    } else {
        strip_hex_prefix(t)
    };
    proof {
        assert(body =~= s@.subrange(b as int, p.1 as int));
    }
    if b == p.1 {
        return Err(String::from_str(err_msg_base).concat(s.substring_char(a, p.1)));
    }
    let mut acc: u32 = 0;
    let mut too_big: bool = false;
    let mut k: usize = b;
    while k < p.1
        invariant
            p.0 <= a <= b <= k <= p.1 <= s@.len(),
            b < p.1,
            body == s@.subrange(b as int, p.1 as int),
            k == b ==> acc == 0 && !too_big,
            k > b ==> ({
                let v = hex_digits_val(s@.subrange(b as int, k as int));
                &&& v is Some
                &&& (!too_big ==> acc == v.unwrap() && acc <= 0xFFFF)
                &&& (too_big ==> v.unwrap() > 0xFFFF)
            }),
        decreases p.1 - k,
    {
        let c = s.get_char(k);
        let dv = hex_val(c);
        match dv {
            None => {
                proof {
                    lemma_hex_digits_invalid(body, k - b);
                }
                return Err(String::from_str(err_msg_base).concat(s.substring_char(a, p.1)));
            },
            Some(d) => {
                proof {
                    assert(s@.subrange(b as int, k as int + 1).drop_last() =~= s@.subrange(
                        b as int,
                        k as int,
                    ));
                    if k == b {
                        assert(s@.subrange(b as int, k as int + 1).len() == 1);
                    }
                }
                if too_big {
                } else {
                    let next = acc * 16 + d as u32;
                    if next > 0xFFFF {
                        too_big = true;
                    } else {
                        acc = next;
                    }
                }
            },
        }
        k += 1;
    }
    if too_big {
        return Err(String::from_str(err_msg_base).concat(s.substring_char(a, p.1)));
    }
    Ok(acc as u16)
}

/// Parses the word at `p` in `s` as a decimal length that fits a `usize`.
#[verifier::loop_isolation(false)]
fn parse_len_at(s: &str, p: (usize, usize)) -> (r: Option<usize>)
    requires
        p.0 <= p.1 <= s@.len(),
    ensures
        r == spec_parse_len(s@.subrange(p.0 as int, p.1 as int)),
{
    let ghost t = s@.subrange(p.0 as int, p.1 as int);
    let mut b: usize = p.0;
    if b < p.1 && s.get_char(b) == '+' {
        b += 1;
    }
    let ghost body = if t.len() >= 1 && t[0] == '+' {
        t.drop_first()
    } else {
        t
    };
    proof {
        assert(body =~= s@.subrange(b as int, p.1 as int));
    }
    if b == p.1 {
        return None;
    }
    let mut acc: usize = 0;
    let mut too_big: bool = false;
    let mut k: usize = b;
    while k < p.1
        invariant
            p.0 <= b <= k <= p.1 <= s@.len(),
            b < p.1,
            body == s@.subrange(b as int, p.1 as int),
            k == b ==> acc == 0 && !too_big,
            k > b ==> ({
                let v = dec_digits_val(s@.subrange(b as int, k as int));
                &&& v is Some
                &&& (!too_big ==> acc == v.unwrap())
                &&& (too_big ==> v.unwrap() > usize::MAX)
            }),
        decreases p.1 - k,
    {
        let c = s.get_char(k);
        let dv = dec_val(c);
        match dv {
            None => {
                proof {
                    lemma_dec_digits_invalid(body, k - b);
                }
                return None;
            },
            Some(d) => {
                proof {
                    assert(s@.subrange(b as int, k as int + 1).drop_last() =~= s@.subrange(
                        b as int,
                        k as int,
                    ));
                    if k == b {
                        assert(s@.subrange(b as int, k as int + 1).len() == 1);
                    }
                }
                if too_big {
                } else if acc > usize::MAX / 10 || (acc == usize::MAX / 10 && d as usize
                    > usize::MAX % 10) {
                    proof {
                        assert(acc * 10 + d > usize::MAX) by (nonlinear_arith)
                            requires
                                acc > usize::MAX / 10 || (acc == usize::MAX / 10 && d as usize
                                    > usize::MAX % 10),
                                0 <= d < 10,
                                acc >= 0,
                        ;
                    }
                    too_big = true;
                } else {
                    proof {
                        assert(acc * 10 + d <= usize::MAX) by (nonlinear_arith)
                            requires
                                !(acc > usize::MAX / 10 || (acc == usize::MAX / 10 && d as usize
                                    > usize::MAX % 10)),
                                0 <= d < 10,
                                acc >= 0,
                        ;
                    }
                    acc = acc * 10 + d as usize;
                }
            },
        }
        k += 1;
    }
    if too_big {
        return None;
    }
    Some(acc)
}

/// The command keywords that change the breakpoint set are distinct from
/// every other keyword.
proof fn lemma_keywords_distinct()
    ensures
        "q"@ != "b"@,
        "s"@ != "b"@,
        "c"@ != "b"@,
        "i"@ != "b"@,
        "h"@ != "b"@,
        "break"@ != "clear"@,
        "q"@.len() == 1,
        "quit"@.len() == 4,
        "s"@.len() == 1,
        "step"@.len() == 4,
        "c"@.len() == 1,
        "continue"@.len() == 8,
        "i"@.len() == 1,
        "info"@.len() == 4,
        "help"@.len() == 4,
        "h"@.len() == 1,
        "b"@.len() == 1,
        "break"@.len() == 5,
        "clear"@.len() == 5,
{
    reveal_strlit("q");
    reveal_strlit("quit");
    reveal_strlit("s");
    reveal_strlit("step");
    reveal_strlit("c");
    reveal_strlit("continue");
    reveal_strlit("i");
    reveal_strlit("info");
    reveal_strlit("b");
    reveal_strlit("break");
    reveal_strlit("clear");
    reveal_strlit("help");
    reveal_strlit("h");
    assert("q"@[0] == 'q' && "s"@[0] == 's' && "c"@[0] == 'c' && "i"@[0] == 'i' && "h"@[0] == 'h'
        && "b"@[0] == 'b' && "break"@[0] == 'b' && "clear"@[0] == 'c');
}

/// The debugger: a breakpoint set and the command-line front end over it.
pub struct Debugger {
    pub breakpoints: HashSet<u16>,
}

impl Debugger {
    /// A debugger with no breakpoints set.
    pub fn new() -> (r: Self)
        ensures
            r.breakpoints@ == Set::<u16>::empty(),
    {
        Debugger { breakpoints: HashSet::new() }
    }

    /// Whether execution should pause at this program counter.
    pub fn should_break(&self, pc: u16) -> (r: bool)
        ensures
            r == self.breakpoints@.contains(pc),
    {
        self.breakpoints.contains(&pc)
    }

    /// Sets a breakpoint at an address.
    pub fn set_breakpoint(&mut self, addr: u16)
        ensures
            final(self).breakpoints@ == old(self).breakpoints@.insert(addr),
    {
        self.breakpoints.insert(addr);
    }

    /// Clears the breakpoint at an address, if one is set.
    pub fn clear_breakpoint(&mut self, addr: u16)
        ensures
            final(self).breakpoints@ == old(self).breakpoints@.remove(addr),
    {
        self.breakpoints.remove(&addr);
    }

    /// Interprets one command line: returns the action the driving loop
    /// should take — or the line's error message — and applies the line's
    /// effect on the breakpoint set. The machine state itself is only ever
    /// read through the introspection interface by the caller.
    pub fn parse_and_execute(&mut self, input: &str, _cpu: &CpuState) -> (r: Result<
        DebugAction,
        String,
    >)
        ensures
            ({
                let pr = spec_parse(input@);
                match r {
                    Ok(a) => pr == Ok::<DebugAction, Seq<char>>(a),
                    Err(e) => pr is Err && e@ == pr.unwrap_err(),
                }
            }),
            final(self).breakpoints@ == spec_breaks_after(old(self).breakpoints@, input@),
    {
        proof {
            reveal_strlit("q");
            reveal_strlit("quit");
            reveal_strlit("s");
            reveal_strlit("step");
            reveal_strlit("c");
            reveal_strlit("continue");
            reveal_strlit("i");
            reveal_strlit("info");
            reveal_strlit("b");
            reveal_strlit("break");
            reveal_strlit("clear");
            reveal_strlit("help");
            reveal_strlit("h");
            reveal_strlit("r");
            reveal_strlit("registers");
            reveal_strlit("m");
            reveal_strlit("memory");
            reveal_strlit("breakpoints");
            lemma_keywords_distinct();
        }
        let toks = tokenize(input);
        if toks.len() == 0 {
            return Ok(DebugAction::Continue);
        }
        let t0 = toks[0];
        proof {
            assert forall|t: int| 0 <= t < toks@.len() implies spec_tokens(input@)[t]
                == input@.subrange((#[trigger] toks@[t]).0 as int, toks@[t].1 as int) by {
                assert(toks@.map_values(|p: (usize, usize)| input@.subrange(p.0 as int, p.1 as int))[t]
                    == spec_tokens(input@)[t]);
            }
        }
        if tok_is(input, t0, "q") || tok_is(input, t0, "quit") {
            Ok(DebugAction::Quit)
        } else if tok_is(input, t0, "s") || tok_is(input, t0, "step") {
            Ok(DebugAction::Step)
        } else if tok_is(input, t0, "c") || tok_is(input, t0, "continue") {
            Ok(DebugAction::Continue)
        } else if tok_is(input, t0, "i") || tok_is(input, t0, "info") {
            if toks.len() < 2 {
                return Err(String::from_str("Usage: info <registers|memory|breakpoints>"));
            }
            let t1 = toks[1];
            if tok_is(input, t1, "r") || tok_is(input, t1, "registers") {
                Ok(DebugAction::ShowRegisters)
            } else if tok_is(input, t1, "m") || tok_is(input, t1, "memory") {
                if toks.len() != 4 {
                    return Err(String::from_str("Usage: info memory <addr> <len>"));
                }
                let addr = match parse_addr_at(input, toks[2]) {
                    Ok(a) => a,
                    Err(e) => {
                        return Err(e);
                    },
                };
                match parse_len_at(input, toks[3]) {
                    Some(len) => Ok(DebugAction::ShowMemory(addr, len)),
                    None => Err(String::from_str("Invalid length")),
                }
            } else if tok_is(input, t1, "b") || tok_is(input, t1, "breakpoints") {
                Ok(DebugAction::ShowBreakpoints)
            } else {
                Err(
                    String::from_str("Unknown info command. Try: registers, memory, breakpoints"),
                )
            }
        } else if tok_is(input, t0, "b") || tok_is(input, t0, "break") {
            if toks.len() != 2 {
                return Err(String::from_str("Usage: break <addr>"));
            }
            match parse_addr_at(input, toks[1]) {
                Ok(a) => {
                    self.set_breakpoint(a);
                    Ok(DebugAction::ShowBreakpoints)
                },
                Err(e) => Err(e),
            }
        } else if tok_is(input, t0, "clear") {
            if toks.len() != 2 {
                return Err(String::from_str("Usage: clear <addr>"));
            }
            match parse_addr_at(input, toks[1]) {
                Ok(a) => {
                    self.clear_breakpoint(a);
                    Ok(DebugAction::ShowBreakpoints)
                },
                Err(e) => Err(e),
            }
        } else if tok_is(input, t0, "help") || tok_is(input, t0, "h") {
            Ok(DebugAction::Help)
        } else {
            Err(
                String::from_str("Unknown command: ").concat(
                    input.substring_char(t0.0, t0.1),
                ),
            )
        }
    }
}

} // verus!
