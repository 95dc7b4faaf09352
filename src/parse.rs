//! Parsers for user input: the `D-HH-MM` time extension of `mextend` and the
//! `#MBATCH` resource directives at the top of a batch script.
use vstd::prelude::*;

use crate::model::RequestedResources;
use crate::text::{
    chars_of, parse_unsigned, parses_to, parses_within, split_chars, split_two, split_words,
    string_of_chars, unsigned_value, words, pieces_view,
};

verus! {

/// What `parse_time_extension` yields for `s`: the extension in seconds, or the error text.
pub open spec fn extension_result(s: Seq<char>) -> Result<nat, Seq<char>> {
    let parts = split_two(s, '-', '-');
    if parts.len() != 3 {
        Err("Time extension must be in D-HH-MM format"@)
    } else if !parses_within(parts[0], u64::MAX as nat) {
        Err("Invalid day format"@)
    } else if !parses_within(parts[1], u64::MAX as nat) {
        Err("Invalid hour format"@)
    } else if !parses_within(parts[2], u64::MAX as nat) {
        Err("Invalid minute format"@)
    } else {
        let d = unsigned_value(parts[0])->0;
        let h = unsigned_value(parts[1])->0;
        let m = unsigned_value(parts[2])->0;
        if h >= 24 {
            Err("Hours must be less than 24"@)
        } else if m >= 60 {
            Err("Minutes must be less than 60"@)
        } else if d * 86400 + h * 3600 + m * 60 > u64::MAX {
            Err("Time extension is too large"@)
        } else {
            Ok(d * 86400 + h * 3600 + m * 60)
        }
    }
}

/// Parses a time extension written `D-HH-MM` into seconds.
pub fn parse_time_extension(arg: &str) -> (r: Result<u64, String>)
    ensures
        match extension_result(arg@) {
            Ok(n) => r matches Ok(v) && v == n,
            Err(e) => r matches Err(x) && x@ == e,
        },
{
    let chars = chars_of(arg);
    let parts = split_chars(&chars, '-', '-');
    proof {
        assert(pieces_view(parts@).len() == parts@.len());
    }
    if parts.len() != 3 {
        return Err(String::from_str("Time extension must be in D-HH-MM format"));
    }
    proof {
        assert(pieces_view(parts@)[0] == parts@[0]@);
        assert(pieces_view(parts@)[1] == parts@[1]@);
        assert(pieces_view(parts@)[2] == parts@[2]@);
    }
    let days = match parse_unsigned(&parts[0], u64::MAX) {
        Some(v) => v,
        None => {
            return Err(String::from_str("Invalid day format"));
        },
    };
    let hours = match parse_unsigned(&parts[1], u64::MAX) {
        Some(v) => v,
        None => {
            return Err(String::from_str("Invalid hour format"));
        },
    };
    let minutes = match parse_unsigned(&parts[2], u64::MAX) {
        Some(v) => v,
        None => {
            return Err(String::from_str("Invalid minute format"));
        },
    };
    if hours >= 24 {
        return Err(String::from_str("Hours must be less than 24"));
    }
    if minutes >= 60 {
        return Err(String::from_str("Minutes must be less than 60"));
    }
    if days > (u64::MAX - hours * 3600 - minutes * 60) / 86400 {
        proof {
            assert(days * 86400 + hours * 3600 + minutes * 60 > u64::MAX) by (nonlinear_arith)
                requires
                    days > (u64::MAX - hours * 3600 - minutes * 60) / 86400,
                    hours < 24,
                    minutes < 60,
            ;
        }
        return Err(String::from_str("Time extension is too large"));
    }
    proof {
        assert(days * 86400 + hours * 3600 + minutes * 60 <= u64::MAX) by (nonlinear_arith)
            requires
                days <= (u64::MAX - hours * 3600 - minutes * 60) / 86400,
                hours < 24,
                minutes < 60,
        ;
    }
    Ok(days * 86400 + hours * 3600 + minutes * 60)
}

/// The directives found so far: cores, memory in bytes, minutes.
pub struct Directives {
    pub cpu_count: Option<u32>,
    pub memory: Option<u64>,
    pub time: Option<u32>,
}

/// The lines of `s` as `BufRead::lines` yields them: split at `\n`, without a final
/// empty piece, each without a trailing `\r`.
pub open spec fn text_lines(s: Seq<char>) -> Seq<Seq<char>> {
    let p = split_two(s, '\n', '\n');
    let q = if p.len() > 0 && p.last().len() == 0 {
        p.drop_last()
    } else {
        p
    };
    q.map_values(|l: Seq<char>| strip_cr(l))
}

/// `l` without one trailing carriage return.
pub open spec fn strip_cr(l: Seq<char>) -> Seq<char> {
    if l.len() > 0 && l.last() == '\r' {
        l.drop_last()
    } else {
        l
    }
}

/// The line starts with `#MBATCH`.
pub open spec fn is_directive(l: Seq<char>) -> bool {
    l.len() >= 7 && l.subrange(0, 7) == seq!['#', 'M', 'B', 'A', 'T', 'C', 'H']
}

/// `n` units of `unit` bytes, if that fits in a `u64`.
pub open spec fn scaled(v: Option<nat>, unit: nat) -> Option<u64> {
    match v {
        Some(n) => if n * unit <= u64::MAX {
            Some((n * unit) as u64)
        } else {
            None
        },
        None => None,
    }
}

/// The number that `s` denotes, if it denotes one of at most `max`.
pub open spec fn bounded_value(s: Seq<char>, max: nat) -> Option<nat> {
    match unsigned_value(s) {
        Some(v) => if v <= max {
            Some(v)
        } else {
            None
        },
        None => None,
    }
}

/// The memory that a `-m` value gives, or the error text for an unknown suffix.
pub open spec fn memory_value(w: Seq<char>) -> Result<Option<u64>, Seq<char>> {
    if w.len() > 0 && w.last() == 'G' {
        Ok(scaled(bounded_value(w.drop_last(), u64::MAX as nat), 1073741824))
    } else if w.len() > 0 && w.last() == 'M' {
        Ok(scaled(bounded_value(w.drop_last(), u64::MAX as nat), 1048576))
    } else {
        Err("Unsupported memory suffix in "@ + w)
    }
}

/// The minutes that a `-t` value gives (`None` when it has not three parts), or the error text.
pub open spec fn time_value(w: Seq<char>) -> Result<Option<u32>, Seq<char>> {
    let parts = split_two(w, '-', ':');
    if parts.len() != 3 {
        Ok(None)
    } else if !parses_within(parts[0], u32::MAX as nat) || !parses_within(parts[1], u32::MAX as nat)
        || !parses_within(parts[2], u32::MAX as nat) {
        Err("Invalid time value in "@ + w)
    } else {
        let d = unsigned_value(parts[0])->0;
        let h = unsigned_value(parts[1])->0;
        let m = unsigned_value(parts[2])->0;
        if h >= 24 {
            Err("Hours must be less than 24"@)
        } else if m >= 60 {
            Err("Minutes must be less than 60"@)
        } else if d * 1440 + h * 60 + m > u32::MAX {
            Err("Time limit is too large"@)
        } else {
            Ok(Some((d * 1440 + h * 60 + m) as u32))
        }
    }
}

/// The directives after reading one more line.
pub open spec fn step_line(st: Directives, l: Seq<char>) -> Result<Directives, Seq<char>> {
    let w = words(l);
    if !is_directive(l) || w.len() < 3 {
        Ok(st)
    } else if w[1] == seq!['-', 'c'] {
        Ok(
            Directives {
                cpu_count: match bounded_value(w[2], u32::MAX as nat) {
                    Some(v) => Some(v as u32),
                    None => None,
                },
                ..st
            },
        )
    } else if w[1] == seq!['-', 'm'] {
        match memory_value(w[2]) {
            Ok(m) => Ok(Directives { memory: m, ..st }),
            Err(e) => Err(e),
        }
    } else if w[1] == seq!['-', 't'] {
        match time_value(w[2]) {
            Ok(Some(t)) => Ok(Directives { time: Some(t), ..st }),
            Ok(None) => Ok(st),
            Err(e) => Err(e),
        }
    } else {
        Ok(st)
    }
}

/// The directives after reading `lines` in order, or the first error.
pub open spec fn scan_lines(lines: Seq<Seq<char>>) -> Result<Directives, Seq<char>>
    decreases lines.len(),
{
    if lines.len() == 0 {
        Ok(Directives { cpu_count: None, memory: None, time: None })
    } else {
        match scan_lines(lines.drop_last()) {
            Ok(st) => step_line(st, lines.last()),
            Err(e) => Err(e),
        }
    }
}

/// What `parse_mbatch_text` yields for a script's text.
pub open spec fn mbatch_result(s: Seq<char>) -> Result<RequestedResources, Seq<char>> {
    match scan_lines(text_lines(s)) {
        Err(e) => Err(e),
        Ok(st) => match (st.cpu_count, st.memory, st.time) {
            (Some(c), Some(m), Some(t)) => Ok(RequestedResources { cpu_count: c, memory: m, time: t }),
            _ => Err("Missing required MBATCH parameters (cpu_count, memory, or time_limit)"@),
        },
    }
}

fn word_is(w: &Vec<char>, a: char, b: char) -> (r: bool)
    ensures
        r == (w@ == seq![a, b]),
{
    let r = w.len() == 2 && w[0] == a && w[1] == b;
    proof {
        if r {
            assert(w@ =~= seq![a, b]);
        }
    }
    r
}

fn without_last(w: &Vec<char>) -> (r: Vec<char>)
    requires
        w@.len() > 0,
    ensures
        r@ == w@.drop_last(),
{
    let mut r: Vec<char> = Vec::new();
    let mut i: usize = 0;
    while i < w.len() - 1
        invariant
            i < w@.len(),
            r@ == w@.subrange(0, i as int),
        decreases w.len() - i,
    {
        r.push(w[i]);
        proof {
            assert(r@ =~= w@.subrange(0, i + 1));
        }
        i = i + 1;
    }
    proof {
        assert(r@ =~= w@.drop_last());
    }
    r
}

fn error_with(prefix: &str, w: &Vec<char>) -> (r: String)
    ensures
        r@ == prefix@ + w@,
{
    let mut s = String::from_str(prefix);
    let t = string_of_chars(w);
    s.append(t.as_str());
    s
}

fn parse_bounded(s: &Vec<char>, max: u64) -> (r: Option<u64>)
    ensures
        match bounded_value(s@, max as nat) {
            Some(v) => r == Some(v as u64),
            None => r is None,
        },
{
    parse_unsigned(s, max)
}

fn memory_of(w: &Vec<char>) -> (r: Result<Option<u64>, String>)
    ensures
        match memory_value(w@) {
            Ok(m) => r == Ok::<Option<u64>, String>(m),
            Err(e) => r matches Err(x) && x@ == e,
        },
{
    let unit: u64;
    if w.len() > 0 && w[w.len() - 1] == 'G' {
        unit = 1073741824;
    } else if w.len() > 0 && w[w.len() - 1] == 'M' {
        unit = 1048576;
    } else {
        return Err(error_with("Unsupported memory suffix in ", w));
    }
    let digits = without_last(w);
    match parse_bounded(&digits, u64::MAX) {
        Some(n) => {
            if n > u64::MAX / unit {
                proof {
                    assert(n * unit > u64::MAX) by (nonlinear_arith)
                        requires
                            n > u64::MAX / unit,
                            unit > 0,
                    ;
                }
                Ok(None)
            } else {
                proof {
                    assert(n * unit <= u64::MAX) by (nonlinear_arith)
                        requires
                            n <= u64::MAX / unit,
                            unit > 0,
                    ;
                }
                Ok(Some(n * unit))
            }
        },
        None => Ok(None),
    }
}

fn time_of(w: &Vec<char>) -> (r: Result<Option<u32>, String>)
    ensures
        match time_value(w@) {
            Ok(t) => r == Ok::<Option<u32>, String>(t),
            Err(e) => r matches Err(x) && x@ == e,
        },
{
    let parts = split_chars(w, '-', ':');
    proof {
        assert(pieces_view(parts@).len() == parts@.len());
    }
    if parts.len() != 3 {
        return Ok(None);
    }
    proof {
        assert(pieces_view(parts@)[0] == parts@[0]@);
        assert(pieces_view(parts@)[1] == parts@[1]@);
        assert(pieces_view(parts@)[2] == parts@[2]@);
    }
    let d = parse_unsigned(&parts[0], u32::MAX as u64);
    let h = parse_unsigned(&parts[1], u32::MAX as u64);
    let m = parse_unsigned(&parts[2], u32::MAX as u64);
    match (d, h, m) {
        (Some(d), Some(h), Some(m)) => {
            if h >= 24 {
                return Err(String::from_str("Hours must be less than 24"));
            }
            if m >= 60 {
                return Err(String::from_str("Minutes must be less than 60"));
            }
            proof {
                assert(d * 1440 + h * 60 <= 0xffff_ffff * 1440 + 0xffff_ffff * 60) by (nonlinear_arith)
                    requires
                        d <= 0xffff_ffff,
                        h <= 0xffff_ffff,
                ;
            }
            if d * 1440 + h * 60 + m > u32::MAX as u64 {
                return Err(String::from_str("Time limit is too large"));
            }
            Ok(Some((d * 1440 + h * 60 + m) as u32))
        },
        _ => Err(error_with("Invalid time value in ", w)),
    }
}

fn starts_with_directive(l: &Vec<char>) -> (r: bool)
    ensures
        r == is_directive(l@),
{
    if l.len() < 7 {
        return false;
    }
    let r = l[0] == '#' && l[1] == 'M' && l[2] == 'B' && l[3] == 'A' && l[4] == 'T' && l[5] == 'C'
        && l[6] == 'H';
    proof {
        if r {
            assert(l@.subrange(0, 7) =~= seq!['#', 'M', 'B', 'A', 'T', 'C', 'H']);
        } else {
            if l@.subrange(0, 7) == seq!['#', 'M', 'B', 'A', 'T', 'C', 'H'] {
                assert(l@[0] == l@.subrange(0, 7)[0]);
                assert(l@[1] == l@.subrange(0, 7)[1]);
                assert(l@[2] == l@.subrange(0, 7)[2]);
                assert(l@[3] == l@.subrange(0, 7)[3]);
                assert(l@[4] == l@.subrange(0, 7)[4]);
                assert(l@[5] == l@.subrange(0, 7)[5]);
                assert(l@[6] == l@.subrange(0, 7)[6]);
            }
        }
    }
    r
}

fn apply_line(st: Directives, l: &Vec<char>) -> (r: Result<Directives, String>)
    ensures
        match step_line(st, l@) {
            Ok(s) => r matches Ok(x) && x == s,
            Err(e) => r matches Err(x) && x@ == e,
        },
{
    let w = split_words(l);
    proof {
        assert(pieces_view(w@).len() == w@.len());
    }
    if !starts_with_directive(l) || w.len() < 3 {
        return Ok(st);
    }
    proof {
        assert(pieces_view(w@)[1] == w@[1]@);
        assert(pieces_view(w@)[2] == w@[2]@);
    }
    if word_is(&w[1], '-', 'c') {
        let cpu = match parse_bounded(&w[2], u32::MAX as u64) {
            Some(v) => Some(v as u32),
            None => None,
        };
        Ok(Directives { cpu_count: cpu, ..st })
    } else if word_is(&w[1], '-', 'm') {
        match memory_of(&w[2]) {
            Ok(m) => Ok(Directives { memory: m, ..st }),
            Err(e) => Err(e),
        }
    } else if word_is(&w[1], '-', 't') {
        match time_of(&w[2]) {
            Ok(Some(t)) => Ok(Directives { time: Some(t), ..st }),
            Ok(None) => Ok(st),
            Err(e) => Err(e),
        }
    } else {
        Ok(st)
    }
}

/// Reads the `#MBATCH -c N`, `-m <N>G|<N>M` and `-t D-HH:MM` directives of a batch
/// script's text. All three must be present; other lines are ignored.
pub fn parse_mbatch_text(content: &str) -> (r: Result<RequestedResources, String>)
    ensures
        match mbatch_result(content@) {
            Ok(res) => r == Ok::<RequestedResources, String>(res),
            Err(e) => r matches Err(x) && x@ == e,
        },
{
    let chars = chars_of(content);
    let mut pieces = split_chars(&chars, '\n', '\n');
    let ghost p = pieces_view(pieces@);
    if pieces.len() > 0 && pieces[pieces.len() - 1].len() == 0 {
        pieces.pop();
        proof {
            assert(pieces_view(pieces@) =~= p.drop_last());
        }
    }
    let ghost lines = text_lines(content@);
    proof {
        assert(lines.len() == pieces@.len());
    }
    let mut st = Directives { cpu_count: None, memory: None, time: None };
    let mut i: usize = 0;
    while i < pieces.len()
        invariant
            i <= pieces@.len(),
            lines == text_lines(content@),
            lines.len() == pieces@.len(),
            forall|k: int| 0 <= k < lines.len() ==> #[trigger] lines[k] == strip_cr(pieces@[k]@),
            scan_lines(lines.subrange(0, i as int)) == Ok::<Directives, Seq<char>>(st),
        decreases pieces.len() - i,
    {
        let line = if pieces[i].len() > 0 && pieces[i][pieces[i].len() - 1] == '\r' {
            without_last(&pieces[i])
        } else {
            let mut c: Vec<char> = Vec::new();
            c.extend_from_slice(pieces[i].as_slice());
            c
        };
        proof {
            assert(line@ =~= lines[i as int]);
            assert(lines.subrange(0, i + 1).drop_last() =~= lines.subrange(0, i as int));
        }
        match apply_line(st, &line) {
            Ok(next) => {
                st = next;
            },
            Err(e) => {
                proof {
                    lemma_scan_error_sticks(lines, i as int + 1);
                }
                return Err(e);
            },
        }
        i = i + 1;
    }
    proof {
        assert(lines.subrange(0, i as int) =~= lines);
    }
    match (st.cpu_count, st.memory, st.time) {
        (Some(c), Some(m), Some(t)) => Ok(RequestedResources { cpu_count: c, memory: m, time: t }),
        _ => Err(String::from_str("Missing required MBATCH parameters (cpu_count, memory, or time_limit)")),
    }
}

proof fn lemma_scan_error_sticks(lines: Seq<Seq<char>>, k: int)
    requires
        0 <= k <= lines.len(),
        scan_lines(lines.subrange(0, k)) is Err,
    ensures
        scan_lines(lines) == scan_lines(lines.subrange(0, k)),
    decreases lines.len() - k,
{
    if k < lines.len() {
        assert(lines.subrange(0, k + 1).drop_last() =~= lines.subrange(0, k));
        lemma_scan_error_sticks(lines, k + 1);
    } else {
        assert(lines.subrange(0, k) =~= lines);
    }
}

/// A `-t D-HH:MM` value with hours of 24 or more, or minutes of 60 or more, is rejected.
pub proof fn lemma_time_limit_rejects_out_of_range(w: Seq<char>)
    requires
        split_two(w, '-', ':').len() == 3,
        parses_within(split_two(w, '-', ':')[0], u32::MAX as nat),
        parses_within(split_two(w, '-', ':')[1], u32::MAX as nat),
        parses_within(split_two(w, '-', ':')[2], u32::MAX as nat),
        unsigned_value(split_two(w, '-', ':')[1])->0 >= 24 || unsigned_value(split_two(w, '-', ':')[2])->0 >= 60,
    ensures
        time_value(w) is Err,
{
}

/// A `-m` value whose last character is neither `G` nor `M` is rejected.
pub proof fn lemma_memory_needs_suffix(w: Seq<char>)
    requires
        w.len() == 0 || (w.last() != 'G' && w.last() != 'M'),
    ensures
        memory_value(w) is Err,
{
}

/// A directive that is rejected makes the whole script's reading fail, whatever
/// follows it.
pub proof fn lemma_rejected_line_fails_script(lines: Seq<Seq<char>>, k: int)
    requires
        0 <= k < lines.len(),
        scan_lines(lines.subrange(0, k)) matches Ok(st) && step_line(st, lines[k]) is Err,
    ensures
        scan_lines(lines) is Err,
{
    assert(lines.subrange(0, k + 1).drop_last() =~= lines.subrange(0, k));
    assert(lines.subrange(0, k + 1).last() == lines[k]);
    lemma_scan_error_sticks(lines, k + 1);
}

/// An extension with hours of 24 or more, or minutes of 60 or more, is rejected.
pub proof fn lemma_extension_rejects_out_of_range(s: Seq<char>)
    requires
        split_two(s, '-', '-').len() == 3,
        parses_within(split_two(s, '-', '-')[0], u64::MAX as nat),
        parses_within(split_two(s, '-', '-')[1], u64::MAX as nat),
        parses_within(split_two(s, '-', '-')[2], u64::MAX as nat),
        unsigned_value(split_two(s, '-', '-')[1])->0 >= 24 || unsigned_value(split_two(s, '-', '-')[2])->0 >= 60,
    ensures
        extension_result(s) is Err,
{
}

} // verus!
