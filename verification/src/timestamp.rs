//! Parsing of user-supplied seek times and rendering of durations.

use vstd::prelude::*;
use vstd::string::*;
use crate::text::{
    all_digits, chars_eq, chars_of, contains_char, digits_value, is_ascii_digit, is_digit,
    is_whitespace, is_ws, parse_u64, parse_u64_spec, push_all, push_str, string_of, sub_chars,
    trim_chars, trim_seq, decimal, decimal2, push_decimal, push_decimal2, digit_char,
    trim_start_seq, trim_end_seq,
};

verus! {

broadcast use vstd::string::group_string_axioms;

/// The pieces of `s` between occurrences of `sep`, as `str::split` yields them.
pub open spec fn split_on(s: Seq<char>, sep: char) -> Seq<Seq<char>>
    decreases s.len(),
{
    if s.len() == 0 {
        seq![Seq::empty()]
    } else {
        let rest = split_on(s.drop_last(), sep);
        if s.last() == sep {
            rest.push(Seq::empty())
        } else {
            rest.update(rest.len() - 1, rest.last().push(s.last()))
        }
    }
}

pub proof fn lemma_split_on_nonempty(s: Seq<char>, sep: char)
    ensures
        split_on(s, sep).len() >= 1,
    decreases s.len(),
{
    if s.len() > 0 {
        lemma_split_on_nonempty(s.drop_last(), sep);
    }
}

/// The end of the run of ASCII digits that starts at `i`.
pub open spec fn digit_run_end(s: Seq<char>, i: nat) -> nat
    decreases s.len() - i,
{
    if i < s.len() && is_digit(s[i as int]) {
        digit_run_end(s, i + 1)
    } else {
        i
    }
}

pub proof fn lemma_digit_run_end(s: Seq<char>, i: nat)
    ensures
        i <= digit_run_end(s, i),
        i <= s.len() ==> digit_run_end(s, i) <= s.len(),
        i < s.len() && is_digit(s[i as int]) ==> i < digit_run_end(s, i),
        i <= s.len() ==> all_digits(s.subrange(i as int, digit_run_end(s, i) as int)),
        digit_run_end(s, i) < s.len() ==> !is_digit(s[digit_run_end(s, i) as int]),
    decreases s.len() - i,
{
    if i < s.len() && is_digit(s[i as int]) {
        lemma_digit_run_end(s, i + 1);
        let j = digit_run_end(s, i);
        assert forall|k: int| 0 <= k < j - i implies is_digit(#[trigger] s.subrange(i as int, j as int)[k]) by {
            if k > 0 {
                assert(s.subrange(i as int, j as int)[k] == s.subrange(i + 1 as int, j as int)[k - 1]);
            }
        }
    }
}

/// How many seconds a unit letter stands for.
pub open spec fn unit_secs(c: char) -> nat {
    if c == 'h' {
        3600
    } else if c == 'm' {
        60
    } else {
        1
    }
}

/// Whether `c` is one of the unit letters `h`, `m`, `s`.
pub open spec fn is_unit(c: char) -> bool {
    c == 'h' || c == 'm' || c == 's'
}

pub open spec fn invalid_number_msg(digits: Seq<char>) -> Seq<char> {
    "Invalid number: "@ + digits
}

pub open spec fn unexpected_char_msg(c: char) -> Seq<char> {
    "Unexpected character `"@ + seq![c] + "` in time string"@
}

pub open spec fn invalid_part_msg(part: Seq<char>) -> Seq<char> {
    "Invalid number in time part: `"@ + part + "`"@
}

/// The suffix form (`1h2m3s`, `90`, `1m 20`): from position `i`, with
/// `total` seconds and `found` (a unit letter seen) so far, the total and
/// whether a unit letter occurred, or the error message.
pub open spec fn scan_units(s: Seq<char>, i: nat, total: nat, found: bool) -> Result<
    (nat, bool),
    Seq<char>,
>
    decreases s.len() - i,
{
    if i >= s.len() {
        Ok((total, found))
    } else if is_digit(s[i as int]) {
        let j = digit_run_end(s, i);
        let digits = s.subrange(i as int, j as int);
        let v = digits_value(digits);
        proof {
            lemma_digit_run_end(s, i);
        }
        if v > u64::MAX {
            Err(invalid_number_msg(digits))
        } else if j < s.len() && is_unit(s[j as int]) {
            let add = v * unit_secs(s[j as int]);
            if add > u64::MAX || total + add > u64::MAX {
                Err("overflow"@)
            } else {
                scan_units(s, j + 1, total + add, true)
            }
        } else if total + v > u64::MAX {
            Err("overflow"@)
        } else {
            scan_units(s, j, total + v, found)
        }
    } else if is_ws(s[i as int]) {
        scan_units(s, i + 1, total, found)
    } else {
        Err(unexpected_char_msg(s[i as int]))
    }
}

/// The colon form `MM:SS` or `HH:MM:SS`.
pub open spec fn colon_secs(s: Seq<char>) -> Result<nat, Seq<char>> {
    let parts = split_on(s, ':');
    let n = parts.len();
    if n == 2 || n == 3 {
        let sp = parts[n - 1];
        let mp = parts[n - 2];
        match parse_u64_spec(trim_seq(sp)) {
            None => Err(invalid_part_msg(sp)),
            Some(secs) => match parse_u64_spec(trim_seq(mp)) {
                None => Err(invalid_part_msg(mp)),
                Some(mins) => {
                    let hours = if n == 3 {
                        parse_u64_spec(trim_seq(parts[0]))
                    } else {
                        Some(0nat)
                    };
                    match hours {
                        None => Err(invalid_part_msg(parts[0])),
                        Some(h) => if mins >= 60 || secs >= 60 {
                            Err(
                                "Minutes/seconds must be less than 60 in colon format (use `90s` for 90 seconds)."@,
                            )
                        } else {
                            Ok(h * 3600 + mins * 60 + secs)
                        },
                    }
                },
            },
        }
    } else {
        Err("Unsupported colon format. Use MM:SS or HH:MM:SS."@)
    }
}

/// The number of seconds that the (trimmed, lower-cased) time text `s`
/// denotes, or the message that rejects it. A plain integer is read as
/// seconds, `0` and `00` included; a text that denotes no time (such as
/// whitespace between nothing) is rejected.
pub open spec fn timestamp_secs(s: Seq<char>) -> Result<nat, Seq<char>> {
    if s.len() == 0 {
        Err("Empty time string"@)
    } else if s.contains(':') {
        colon_secs(s)
    } else {
        match scan_units(s, 0, 0, false) {
            Err(e) => Err(e),
            Ok((total, found)) => if total == 0 && !found {
                if all_digits(s) || s == "0s"@ {
                    Ok(0)
                } else {
                    Err("Couldn't parse time. Try `1:20`, `80s`, or `1m20s`."@)
                }
            } else {
                Ok(total)
            },
        }
    }
}

/// Whether the seconds that `s` denotes fit in 64 bits. Only the colon form
/// can exceed them: the unit form reports `overflow` instead (see
/// `lemma_fits_secs`).
pub open spec fn timestamp_fits(s: Seq<char>) -> bool {
    s.contains(':') ==> (colon_secs(s) matches Ok(v) ==> v <= u64::MAX)
}

/// A time text that fits denotes a number of seconds that fits in 64 bits;
/// every text without a colon fits.
pub proof fn lemma_fits_secs(s: Seq<char>)
    ensures
        !s.contains(':') ==> timestamp_fits(s),
        timestamp_fits(s) ==> (timestamp_secs(s) matches Ok(v) ==> v <= u64::MAX),
{
    lemma_scan_units_bounded(s, 0, 0, false);
}

/// Whether the exec result `r` is the spec result `spec`.
pub open spec fn secs_result_is(r: Result<u64, String>, spec: Result<nat, Seq<char>>) -> bool {
    match r {
        Ok(v) => spec == Ok::<nat, Seq<char>>(v as nat),
        Err(e) => spec == Err::<nat, Seq<char>>(e@),
    }
}

/// The pieces of `s` between occurrences of `sep`.
pub fn split_chars(s: &[char], sep: char) -> (r: Vec<Vec<char>>)
    ensures
        r.deep_view() == split_on(s@, sep),
{
    let mut done: Vec<Vec<char>> = Vec::new();
    let mut cur: Vec<char> = Vec::new();
    let mut i: usize = 0;
    assert(s@.take(0) == Seq::<char>::empty());
    assert(done.deep_view().push(cur@) == split_on(s@.take(0), sep));
    while i < s.len()
        invariant
            i <= s@.len(),
            split_on(s@.take(i as int), sep) == done.deep_view().push(cur@),
        decreases s@.len() - i,
    {
        let c = s[i];
        let ghost before = split_on(s@.take(i as int), sep);
        assert(s@.take(i + 1).drop_last() == s@.take(i as int));
        assert(s@.take(i + 1).last() == c);
        if c == sep {
            let ghost old_done = done.deep_view();
            done.push(cur);
            assert(done.deep_view() =~= old_done.push(cur@)) by {
                assert forall|k: int| 0 <= k < done.deep_view().len() implies #[trigger] done.deep_view()[k] == old_done.push(cur@)[k] by {
                    if k < old_done.len() {
                        assert(done.deep_view()[k] == done@[k].deep_view());
                    }
                }
            }
            cur = Vec::new();
        } else {
            cur.push(c);
            assert(done.deep_view().push(cur@) == before.update(before.len() - 1, before.last().push(c)));
        }
        i += 1;
    }
    assert(s@.take(s@.len() as int) == s@);
    let ghost old_done = done.deep_view();
    done.push(cur);
    assert(done.deep_view() =~= old_done.push(cur@)) by {
        assert forall|k: int| 0 <= k < done.deep_view().len() implies #[trigger] done.deep_view()[k] == old_done.push(cur@)[k] by {
            if k < old_done.len() {
                assert(done.deep_view()[k] == done@[k].deep_view());
            }
        }
    }
    done
}

fn invalid_part(part: &[char]) -> (e: String)
    ensures
        e@ == invalid_part_msg(part@),
{
    let mut m: Vec<char> = Vec::new();
    push_str(&mut m, "Invalid number in time part: `");
    push_all(&mut m, part);
    push_str(&mut m, "`");
    string_of(m.as_slice())
}

/// Parses one piece of the colon form: trimmed, then read as a `u64`.
fn parse_part(part: &[char]) -> (r: Result<u64, String>)
    ensures
        match r {
            Ok(v) => parse_u64_spec(trim_seq(part@)) == Some(v as nat),
            Err(e) => parse_u64_spec(trim_seq(part@)) is None && e@ == invalid_part_msg(part@),
        },
{
    let t = trim_chars(part);
    match parse_u64(t.as_slice()) {
        Some(v) => Ok(v),
        None => Err(invalid_part(part)),
    }
}

/// The colon form `MM:SS` or `HH:MM:SS` of the time text `s`.
pub fn parse_colon(s: &[char]) -> (r: Result<u64, String>)
    requires
        colon_secs(s@) matches Ok(v) ==> v <= u64::MAX,
    ensures
        secs_result_is(r, colon_secs(s@)),
{
    let parts = split_chars(s, ':');
    let n = parts.len();
    proof {
        assert(parts.deep_view().len() == n);
    }
    if n == 2 || n == 3 {
        assert(parts[n - 1]@ == parts.deep_view()[n - 1]);
        assert(parts[n - 2]@ == parts.deep_view()[n - 2]);
        assert(parts[0]@ == parts.deep_view()[0]);
        let secs = parse_part(parts[n - 1].as_slice())?;
        let mins = parse_part(parts[n - 2].as_slice())?;
        let hours: u64 = if n == 3 {
            parse_part(parts[0].as_slice())?
        } else {
            0
        };
        if mins >= 60 || secs >= 60 {
            return Err(
                String::from_str(
                    "Minutes/seconds must be less than 60 in colon format (use `90s` for 90 seconds).",
                ),
            );
        }
        Ok(hours * 3600 + mins * 60 + secs)
    } else {
        Err(String::from_str("Unsupported colon format. Use MM:SS or HH:MM:SS."))
    }
}

/// The suffix form of the time text `s`: the total seconds and whether a
/// unit letter occurred, or the message that rejects it.
pub fn scan_suffix(s: &[char]) -> (r: Result<(u64, bool), String>)
    ensures
        match r {
            Ok((t, f)) => scan_units(s@, 0, 0, false) == Ok::<(nat, bool), Seq<char>>((t as nat, f)),
            Err(e) => scan_units(s@, 0, 0, false) == Err::<(nat, bool), Seq<char>>(e@),
        },
{
    let n = s.len();
    let mut i: usize = 0;
    let mut total: u64 = 0;
    let mut found = false;
    while i < n
        invariant
            i <= n,
            n == s@.len(),
            scan_units(s@, 0, 0, false) == scan_units(s@, i as nat, total as nat, found),
        decreases n - i,
    {
        let c = s[i];
        if is_ascii_digit(c) {
            proof {
                lemma_digit_run_end(s@, i as nat);
            }
            let mut j = i;
            while j < n && is_ascii_digit(s[j])
                invariant
                    i <= j <= n,
                    n == s@.len(),
                    digit_run_end(s@, i as nat) == digit_run_end(s@, j as nat),
                decreases n - j,
            {
                j += 1;
            }
            let digits = sub_chars(s, i, j);
            let v = match parse_u64(digits.as_slice()) {
                Some(v) => v,
                None => {
                    let mut m: Vec<char> = Vec::new();
                    push_str(&mut m, "Invalid number: ");
                    push_all(&mut m, digits.as_slice());
                    return Err(string_of(m.as_slice()));
                },
            };
            if j < n && (s[j] == 'h' || s[j] == 'm' || s[j] == 's') {
                let unit: u64 = if s[j] == 'h' {
                    3600
                } else if s[j] == 'm' {
                    60
                } else {
                    1
                };
                let add = match v.checked_mul(unit) {
                    Some(a) => a,
                    None => return Err(String::from_str("overflow")),
                };
                total = match total.checked_add(add) {
                    Some(t) => t,
                    None => return Err(String::from_str("overflow")),
                };
                found = true;
                i = j + 1;
            } else {
                total = match total.checked_add(v) {
                    Some(t) => t,
                    None => return Err(String::from_str("overflow")),
                };
                i = j;
            }
        } else if is_whitespace(c) {
            i += 1;
        } else {
            let mut m: Vec<char> = Vec::new();
            push_str(&mut m, "Unexpected character `");
            m.push(c);
            push_str(&mut m, "` in time string");
            assert(m@ =~= unexpected_char_msg(c));
            return Err(string_of(m.as_slice()));
        }
    }
    Ok((total, found))
}

/// Whether every character of `s` is an ASCII digit.
fn digits_only(s: &[char]) -> (b: bool)
    ensures
        b == all_digits(s@),
{
    let mut i: usize = 0;
    while i < s.len()
        invariant
            i <= s@.len(),
            forall|k: int| 0 <= k < i ==> is_digit(#[trigger] s@[k]),
        decreases s@.len() - i,
    {
        if !is_ascii_digit(s[i]) {
            return false;
        }
        i += 1;
    }
    true
}

/// Reads the time text `s`, already trimmed and in lower case: the colon
/// form `MM:SS` / `HH:MM:SS`, or units such as `1h2m3s`, or plain seconds.
pub fn parse_time_text(s: &[char]) -> (r: Result<u64, String>)
    requires
        timestamp_fits(s@),
    ensures
        secs_result_is(r, timestamp_secs(s@)),
{
    if s.len() == 0 {
        return Err(String::from_str("Empty time string"));
    }
    if contains_char(s, ':') {
        return parse_colon(s);
    }
    let (total, found) = scan_suffix(s)?;
    if total == 0 && !found {
        let zero_s = chars_of("0s");
        if digits_only(s) || chars_eq(s, zero_s.as_slice()) {
            Ok(0)
        } else {
            Err(String::from_str("Couldn't parse time. Try `1:20`, `80s`, or `1m20s`."))
        }
    } else {
        Ok(total)
    }
}

/// What `str::to_lowercase` returns for the characters `s`: their Unicode
/// lower-case form.
pub uninterp spec fn lowercase(s: Seq<char>) -> Seq<char>;

/// Whether every character of `s` is ASCII.
pub open spec fn is_ascii_text(s: Seq<char>) -> bool {
    forall|i: int| 0 <= i < s.len() ==> (#[trigger] s[i]) as u32 <= 0x7f
}

/// `char::to_ascii_lowercase`: `A`..`Z` become `a`..`z`, the rest stays.
pub open spec fn ascii_lower_char(c: char) -> char {
    if 'A' <= c <= 'Z' {
        ((c as u32) + 32) as char
    } else {
        c
    }
}

/// `char::to_ascii_uppercase`: `a`..`z` become `A`..`Z`, the rest stays.
pub open spec fn ascii_upper_char(c: char) -> char {
    if 'a' <= c <= 'z' {
        ((c as u32) - 32) as char
    } else {
        c
    }
}

/// `s` with its ASCII letters in lower case.
pub open spec fn ascii_lower(s: Seq<char>) -> Seq<char> {
    s.map_values(|c: char| ascii_lower_char(c))
}

/// `s` with its ASCII letters in upper case.
pub open spec fn ascii_upper(s: Seq<char>) -> Seq<char> {
    s.map_values(|c: char| ascii_upper_char(c))
}

/// `str::to_lowercase`. Claimed: the result is `lowercase(s@)`, a function of
/// `s` alone, and for an all-ASCII text it is the text with `A`..`Z` mapped to
/// `a`..`z` (the Unicode lower case of ASCII characters, as std documents
/// for `to_ascii_lowercase`). What the mapping does beyond ASCII (the Unicode
/// tables std follows, and its rule for a final sigma) is not stated here.
#[verifier::external_body]
pub(crate) fn to_lowercase(s: &str) -> (r: String)
    ensures
        r@ == lowercase(s@),
        is_ascii_text(s@) ==> r@ == ascii_lower(s@),
{
    s.to_lowercase()
}

/// The time text that `parse_timestamp` reads from `input`: trimmed, then in
/// lower case.
pub open spec fn normalized_time(input: Seq<char>) -> Seq<char> {
    lowercase(trim_seq(input))
}

/// The time text read from an all-ASCII `input`: trimmed, with `A`..`Z` in
/// lower case.
pub open spec fn ascii_time(input: Seq<char>) -> Seq<char> {
    ascii_lower(trim_seq(input))
}

proof fn lemma_trim_start_ascii(s: Seq<char>)
    requires
        is_ascii_text(s),
    ensures
        is_ascii_text(trim_start_seq(s)),
    decreases s.len(),
{
    if s.len() > 0 && is_ws(s[0]) {
        assert forall|i: int| 0 <= i < s.drop_first().len() implies (#[trigger] s.drop_first()[i]) as u32
            <= 0x7f by {
            assert(s.drop_first()[i] == s[i + 1]);
        }
        lemma_trim_start_ascii(s.drop_first());
    }
}

proof fn lemma_trim_end_ascii(s: Seq<char>)
    requires
        is_ascii_text(s),
    ensures
        is_ascii_text(trim_end_seq(s)),
    decreases s.len(),
{
    if s.len() > 0 && is_ws(s.last()) {
        assert forall|i: int| 0 <= i < s.drop_last().len() implies (#[trigger] s.drop_last()[i]) as u32
            <= 0x7f by {
            assert(s.drop_last()[i] == s[i]);
        }
        lemma_trim_end_ascii(s.drop_last());
    }
}

/// Trimming keeps an ASCII text ASCII.
pub proof fn lemma_trim_ascii(s: Seq<char>)
    requires
        is_ascii_text(s),
    ensures
        is_ascii_text(trim_seq(s)),
{
    lemma_trim_start_ascii(s);
    lemma_trim_end_ascii(trim_start_seq(s));
}

proof fn lemma_upper_keeps_ws(c: char)
    ensures
        is_ws(ascii_upper_char(c)) == is_ws(c),
        ascii_lower_char(ascii_upper_char(c)) == ascii_lower_char(c),
        (c as u32 <= 0x7f) ==> (ascii_upper_char(c) as u32 <= 0x7f),
{
}

proof fn lemma_trim_start_upper(s: Seq<char>)
    ensures
        trim_start_seq(ascii_upper(s)) == ascii_upper(trim_start_seq(s)),
    decreases s.len(),
{
    if s.len() > 0 {
        lemma_upper_keeps_ws(s[0]);
        assert(ascii_upper(s)[0] == ascii_upper_char(s[0]));
        assert(ascii_upper(s).drop_first() =~= ascii_upper(s.drop_first()));
        lemma_trim_start_upper(s.drop_first());
    }
}

proof fn lemma_trim_end_upper(s: Seq<char>)
    ensures
        trim_end_seq(ascii_upper(s)) == ascii_upper(trim_end_seq(s)),
    decreases s.len(),
{
    if s.len() > 0 {
        lemma_upper_keeps_ws(s.last());
        assert(ascii_upper(s).last() == ascii_upper_char(s.last()));
        assert(ascii_upper(s).drop_last() =~= ascii_upper(s.drop_last()));
        lemma_trim_end_upper(s.drop_last());
    }
}

proof fn lemma_trim_start_append(a: Seq<char>, b: Seq<char>)
    ensures
        trim_start_seq(a + b) == if trim_start_seq(a).len() > 0 {
            trim_start_seq(a) + b
        } else {
            trim_start_seq(b)
        },
    decreases a.len(),
{
    if a.len() == 0 {
        assert(a + b =~= b);
    } else {
        assert((a + b)[0] == a[0]);
        if is_ws(a[0]) {
            assert((a + b).drop_first() =~= a.drop_first() + b);
            lemma_trim_start_append(a.drop_first(), b);
        }
    }
}

/// A text of whitespace only trims to nothing.
proof fn lemma_ws_trims_away(w: Seq<char>)
    requires
        forall|i: int| 0 <= i < w.len() ==> is_ws(#[trigger] w[i]),
    ensures
        trim_start_seq(w).len() == 0,
        trim_end_seq(w).len() == 0,
    decreases w.len(),
{
    if w.len() > 0 {
        assert(is_ws(w[0]));
        assert(is_ws(w[w.len() - 1]));
        assert forall|i: int| 0 <= i < w.drop_first().len() implies is_ws(#[trigger] w.drop_first()[i]) by {
            assert(w.drop_first()[i] == w[i + 1]);
        }
        assert forall|i: int| 0 <= i < w.drop_last().len() implies is_ws(#[trigger] w.drop_last()[i]) by {
            assert(w.drop_last()[i] == w[i]);
        }
        lemma_ws_trims_away(w.drop_first());
        lemma_ws_trims_away(w.drop_last());
    }
}

/// Reading a time ignores the whitespace around it: the text with any
/// whitespace `w1` before it and `w2` after it is read as the same time
/// text, whatever it holds (so `parse_timestamp` and
/// `parse_timestamp_checked` answer both alike).
pub proof fn lemma_time_space(w1: Seq<char>, s: Seq<char>, w2: Seq<char>)
    requires
        forall|i: int| 0 <= i < w1.len() ==> is_ws(#[trigger] w1[i]),
        forall|i: int| 0 <= i < w2.len() ==> is_ws(#[trigger] w2[i]),
    ensures
        trim_seq(w1 + s + w2) == trim_seq(s),
        normalized_time(w1 + s + w2) == normalized_time(s),
        ascii_time(w1 + s + w2) == ascii_time(s),
{
    lemma_ws_trims_away(w1);
    lemma_ws_trims_away(w2);
    assert(w1 + s + w2 =~= w1 + (s + w2));
    lemma_trim_start_append(w1, s + w2);
    lemma_trim_start_append(s, w2);
    let u = trim_start_seq(s);
    lemma_trim_end_append(u, w2);
    if u.len() == 0 {
        assert(trim_end_seq(u) == u) by {
            assert(!(u.len() > 0));
        }
        assert(trim_end_seq(trim_start_seq(w2)).len() == 0) by {
            lemma_trim_end_split(trim_start_seq(w2));
        }
        assert(trim_end_seq(trim_start_seq(w2)) =~= u);
    }
}

/// Reading a time ignores the case of its letters: an ASCII text and its
/// upper-case form are read as the same time text (so `parse_timestamp` and
/// `parse_timestamp_checked` answer both alike).
pub proof fn lemma_time_case(s: Seq<char>)
    requires
        is_ascii_text(s),
    ensures
        is_ascii_text(ascii_upper(s)),
        ascii_time(ascii_upper(s)) == ascii_time(s),
{
    assert forall|i: int| 0 <= i < ascii_upper(s).len() implies (#[trigger] ascii_upper(s)[i]) as u32
        <= 0x7f by {
        lemma_upper_keeps_ws(s[i]);
    }
    lemma_trim_start_upper(s);
    lemma_trim_end_upper(trim_start_seq(s));
    let t = trim_seq(s);
    assert forall|i: int| 0 <= i < t.len() implies #[trigger] ascii_lower(ascii_upper(t))[i]
        == ascii_lower(t)[i] by {
        lemma_upper_keeps_ws(t[i]);
    }
    assert(ascii_lower(ascii_upper(t)) =~= ascii_lower(t));
}

fn normalize(input: &str) -> (r: Vec<char>)
    ensures
        r@ == normalized_time(input@),
        is_ascii_text(input@) ==> r@ == ascii_time(input@),
{
    let cs = chars_of(input);
    let t = trim_chars(cs.as_slice());
    let ts = string_of(t.as_slice());
    proof {
        if is_ascii_text(input@) {
            lemma_trim_ascii(input@);
        }
    }
    let lower = to_lowercase(ts.as_str());
    chars_of(lower.as_str())
}

/// Parses a user-supplied timestamp into seconds. Accepts `MM:SS` (`1:20`),
/// `HH:MM:SS` (`1:02:30`), units `Xs`, `Xm`, `Xh` or combined (`1h2m3s`),
/// and a plain integer (`90`) as seconds. A colon-form time must denote at
/// most `u64::MAX` seconds (larger ones overflow); every other text is
/// answered, a unit-form total beyond 64 bits with the error `overflow`.
pub fn parse_timestamp(input: &str) -> (r: Result<u64, String>)
    requires
        timestamp_fits(normalized_time(input@)),
    ensures
        secs_result_is(r, timestamp_secs(normalized_time(input@))),
        is_ascii_text(input@) ==> secs_result_is(r, timestamp_secs(ascii_time(input@))),
{
    let s = normalize(input);
    parse_time_text(s.as_slice())
}

/// Whether the exec text `s` denotes more seconds than 64 bits hold.
fn overflows(s: &[char]) -> (b: bool)
    ensures
        b == !timestamp_fits(s@),
{
    if s.len() == 0 || !contains_char(s, ':') {
        proof {
            lemma_scan_units_bounded(s@, 0, 0, false);
        }
        return false;
    }
    let parts = split_chars(s, ':');
    let n = parts.len();
    proof {
        assert(parts.deep_view().len() == n);
    }
    if n != 2 && n != 3 {
        return false;
    }
    assert(parts[n - 1]@ == parts.deep_view()[n - 1]);
    assert(parts[n - 2]@ == parts.deep_view()[n - 2]);
    assert(parts[0]@ == parts.deep_view()[0]);
    let secs = match parse_part(parts[n - 1].as_slice()) {
        Ok(v) => v,
        Err(_) => return false,
    };
    let mins = match parse_part(parts[n - 2].as_slice()) {
        Ok(v) => v,
        Err(_) => return false,
    };
    if n == 3 {
        let hours = match parse_part(parts[0].as_slice()) {
            Ok(v) => v,
            Err(_) => return false,
        };
        if mins >= 60 || secs >= 60 {
            return false;
        }
        hours > (u64::MAX - mins * 60 - secs) / 3600
    } else {
        false
    }
}

pub proof fn lemma_scan_units_bounded(s: Seq<char>, i: nat, total: nat, found: bool)
    requires
        total <= u64::MAX,
    ensures
        scan_units(s, i, total, found) matches Ok((t, f)) ==> t <= u64::MAX,
    decreases s.len() - i,
{
    if i < s.len() {
        lemma_digit_run_end(s, i);
        let j = digit_run_end(s, i);
        if is_digit(s[i as int]) {
            let v = digits_value(s.subrange(i as int, j as int));
            if j < s.len() && is_unit(s[j as int]) {
                if total + v * unit_secs(s[j as int]) <= u64::MAX {
                    lemma_scan_units_bounded(s, j + 1, total + v * unit_secs(s[j as int]), true);
                }
            } else if total + v <= u64::MAX {
                lemma_scan_units_bounded(s, j, total + v, found);
            }
        } else if is_ws(s[i as int]) {
            lemma_scan_units_bounded(s, i + 1, total, found);
        }
    }
}

proof fn lemma_run_prefix(a: Seq<char>, b: Seq<char>, i: nat)
    requires
        i < a.len(),
        !is_digit(a.last()),
    ensures
        digit_run_end(a + b, i) == digit_run_end(a, i),
    decreases a.len() - i,
{
    assert((a + b)[i as int] == a[i as int]);
    if is_digit(a[i as int]) {
        assert(i + 1 < a.len());
        lemma_run_prefix(a, b, i + 1);
    }
}

proof fn lemma_run_shift(a: Seq<char>, b: Seq<char>, j: nat)
    requires
        j <= b.len(),
    ensures
        digit_run_end(a + b, a.len() + j) == a.len() + digit_run_end(b, j),
    decreases b.len() - j,
{
    if j < b.len() {
        assert((a + b)[(a.len() + j) as int] == b[j as int]);
        if is_digit(b[j as int]) {
            lemma_run_shift(a, b, j + 1);
        }
    }
}

/// Scanning the unit form of `a + b` from inside `b` is scanning `b`.
proof fn lemma_scan_shift(a: Seq<char>, b: Seq<char>, j: nat, t: nat, f: bool)
    requires
        j <= b.len(),
    ensures
        scan_units(a + b, a.len() + j, t, f) == scan_units(b, j, t, f),
    decreases b.len() - j,
{
    if j < b.len() {
        let s = a + b;
        let i = (a.len() + j) as nat;
        assert(s[i as int] == b[j as int]);
        lemma_run_shift(a, b, j);
        lemma_digit_run_end(b, j);
        let k = digit_run_end(b, j);
        assert(s.subrange(i as int, (a.len() + k) as int) =~= b.subrange(j as int, k as int));
        if k < b.len() {
            assert(s[(a.len() + k) as int] == b[k as int]);
        }
        if is_digit(b[j as int]) {
            if k < b.len() && is_unit(b[k as int]) {
                let add = digits_value(b.subrange(j as int, k as int)) * unit_secs(b[k as int]);
                lemma_scan_shift(a, b, k + 1, t + add, true);
            } else {
                lemma_scan_shift(a, b, k, t + digits_value(b.subrange(j as int, k as int)), f);
            }
        } else {
            lemma_scan_shift(a, b, j + 1, t, f);
        }
    }
}

/// Scanning the unit form of `a + b` through `a`, which ends with a unit
/// letter, leaves the scan of `b` with what `a` gave; a scan that starts
/// inside `a` has seen a unit letter by its end.
proof fn lemma_scan_prefix(a: Seq<char>, b: Seq<char>, i: nat, t: nat, f: bool)
    requires
        i <= a.len(),
        a.len() > 0,
        is_unit(a.last()),
        scan_units(a, i, t, f) is Ok,
    ensures
        scan_units(a + b, i, t, f) == scan_units(
            b,
            0,
            scan_units(a, i, t, f)->Ok_0.0,
            scan_units(a, i, t, f)->Ok_0.1,
        ),
        i < a.len() ==> scan_units(a, i, t, f)->Ok_0.1,
    decreases a.len() - i,
{
    let s = a + b;
    if i == a.len() {
        lemma_scan_shift(a, b, 0, t, f);
        assert(a.len() + 0 == i);
    } else {
        assert(s[i as int] == a[i as int]);
        lemma_run_prefix(a, b, i);
        lemma_digit_run_end(a, i);
        let k = digit_run_end(a, i);
        assert(s.subrange(i as int, k as int) =~= a.subrange(i as int, k as int));
        if k < a.len() {
            assert(s[k as int] == a[k as int]);
        }
        if is_digit(a[i as int]) {
            assert(k < a.len());
            let v = digits_value(a.subrange(i as int, k as int));
            if is_unit(a[k as int]) {
                lemma_scan_prefix(a, b, k + 1, t + v * unit_secs(a[k as int]), true);
            } else {
                assert(k < a.len() - 1);
                lemma_scan_prefix(a, b, k, t + v, f);
            }
        } else if is_ws(a[i as int]) {
            assert(i < a.len() - 1);
            lemma_scan_prefix(a, b, i + 1, t, f);
        }
    }
}

/// Starting the scan with `c` more seconds ends with `c` more, when that
/// fits; a unit letter already seen stays seen.
proof fn lemma_scan_total(b: Seq<char>, j: nat, t: nat, f: bool, c: nat, h: bool)
    requires
        j <= b.len(),
        scan_units(b, j, t, f) is Ok,
        scan_units(b, j, t, f)->Ok_0.0 + c <= u64::MAX,
    ensures
        scan_units(b, j, t, f)->Ok_0.0 >= t,
        scan_units(b, j, t + c, f || h) == Ok::<(nat, bool), Seq<char>>(
            (scan_units(b, j, t, f)->Ok_0.0 + c, scan_units(b, j, t, f)->Ok_0.1 || h),
        ),
    decreases b.len() - j,
{
    if j < b.len() {
        lemma_digit_run_end(b, j);
        let k = digit_run_end(b, j);
        if is_digit(b[j as int]) {
            let v = digits_value(b.subrange(j as int, k as int));
            if k < b.len() && is_unit(b[k as int]) {
                let add = v * unit_secs(b[k as int]);
                lemma_scan_total(b, k + 1, t + add, true, c, h);
                assert(t + c + add == t + add + c);
            } else {
                lemma_scan_total(b, k, t + v, f, c, h);
                assert(t + c + v == t + v + c);
            }
        } else if is_ws(b[j as int]) {
            lemma_scan_total(b, j + 1, t, f, c, h);
        }
    }
}

/// Writing two unit-form times one after the other adds them: when the
/// first ends with a unit letter (`h`, `m` or `s`), `a` denotes `x` seconds,
/// `b` denotes `y`, and the sum fits, then `a + b` denotes `x + y` (for
/// example `1h` and `30m` give `1h30m`, 5400 seconds).
pub proof fn lemma_units_add(a: Seq<char>, b: Seq<char>, x: nat, y: nat)
    requires
        !a.contains(':'),
        !b.contains(':'),
        a.len() > 0,
        is_unit(a.last()),
        timestamp_secs(a) == Ok::<nat, Seq<char>>(x),
        timestamp_secs(b) == Ok::<nat, Seq<char>>(y),
        x + y <= u64::MAX,
    ensures
        timestamp_secs(a + b) == Ok::<nat, Seq<char>>(x + y),
{
    let s = a + b;
    assert(!s.contains(':')) by {
        if s.contains(':') {
            let k = choose|k: int| 0 <= k < s.len() && s[k] == ':';
            if k < a.len() {
                assert(a[k] == ':');
            } else {
                assert(b[k - a.len()] == ':');
            }
        }
    }
    lemma_scan_prefix(a, b, 0, 0, false);
    let ra = scan_units(a, 0, 0, false)->Ok_0;
    assert(ra.1);
    assert(ra.0 == x);
    let rb = scan_units(b, 0, 0, false);
    assert(rb is Ok);
    assert(rb->Ok_0.0 == y);
    lemma_scan_total(b, 0, 0, false, x, true);
    assert(0 + x == x);
}

proof fn lemma_trim_start_split(s: Seq<char>)
    ensures
        trim_start_seq(s).len() <= s.len(),
        trim_start_seq(s) == s.subrange(s.len() - trim_start_seq(s).len(), s.len() as int),
        forall|i: int| 0 <= i < s.len() - trim_start_seq(s).len() ==> is_ws(#[trigger] s[i]),
    decreases s.len(),
{
    if s.len() > 0 && is_ws(s[0]) {
        lemma_trim_start_split(s.drop_first());
        let k = s.len() - trim_start_seq(s).len();
        assert(s.drop_first().subrange(k - 1, s.len() - 1) =~= s.subrange(k, s.len() as int));
        assert forall|i: int| 0 <= i < k implies is_ws(#[trigger] s[i]) by {
            if i > 0 {
                assert(s[i] == s.drop_first()[i - 1]);
            }
        }
    } else {
        assert(s.subrange(0, s.len() as int) =~= s);
    }
}

proof fn lemma_trim_end_split(s: Seq<char>)
    ensures
        trim_end_seq(s).len() <= s.len(),
        trim_end_seq(s) == s.subrange(0, trim_end_seq(s).len() as int),
        forall|i: int| trim_end_seq(s).len() <= i < s.len() ==> is_ws(#[trigger] s[i]),
    decreases s.len(),
{
    if s.len() > 0 && is_ws(s.last()) {
        lemma_trim_end_split(s.drop_last());
        let m = trim_end_seq(s).len();
        assert(s.drop_last().subrange(0, m as int) =~= s.subrange(0, m as int));
        assert forall|i: int| m <= i < s.len() implies is_ws(#[trigger] s[i]) by {
            if i < s.len() - 1 {
                assert(s[i] == s.drop_last()[i]);
            }
        }
    } else {
        assert(s.subrange(0, s.len() as int) =~= s);
    }
}

proof fn lemma_trim_end_append(a: Seq<char>, b: Seq<char>)
    ensures
        trim_end_seq(a + b) == if trim_end_seq(b).len() > 0 {
            a + trim_end_seq(b)
        } else {
            trim_end_seq(a)
        },
    decreases b.len(),
{
    if b.len() == 0 {
        assert(a + b =~= a);
    } else {
        assert((a + b).last() == b.last());
        if is_ws(b.last()) {
            assert((a + b).drop_last() =~= a + b.drop_last());
            lemma_trim_end_append(a, b.drop_last());
        }
    }
}

proof fn lemma_lower_concat(x: Seq<char>, y: Seq<char>)
    ensures
        ascii_lower(x + y) == ascii_lower(x) + ascii_lower(y),
{
    assert(ascii_lower(x + y) =~= ascii_lower(x) + ascii_lower(y));
}

/// Whitespace is left as it is by the ASCII lower-casing.
proof fn lemma_lower_ws(w: Seq<char>)
    requires
        forall|i: int| 0 <= i < w.len() ==> is_ws(#[trigger] w[i]),
    ensures
        forall|i: int| 0 <= i < ascii_lower(w).len() ==> is_ws(#[trigger] ascii_lower(w)[i]),
        ascii_lower(w).len() == w.len(),
{
    assert forall|i: int| 0 <= i < ascii_lower(w).len() implies is_ws(#[trigger] ascii_lower(w)[i]) by {
        assert(is_ws(w[i]));
        assert(ascii_lower(w)[i] == ascii_lower_char(w[i]));
    }
}

/// The unit-form scan passes over leading whitespace.
proof fn lemma_scan_skip_ws(w: Seq<char>, b: Seq<char>, i: nat, t: nat, f: bool)
    requires
        i <= w.len(),
        forall|k: int| 0 <= k < w.len() ==> is_ws(#[trigger] w[k]),
    ensures
        scan_units(w + b, i, t, f) == scan_units(b, 0, t, f),
    decreases w.len() - i,
{
    if i == w.len() {
        lemma_scan_shift(w, b, 0, t, f);
        assert(w.len() + 0 == i);
    } else {
        assert((w + b)[i as int] == w[i as int]);
        assert(is_ws(w[i as int]));
        assert(!is_digit(w[i as int]));
        lemma_scan_skip_ws(w, b, i + 1, t, f);
    }
}

/// A text without a colon reads as a time text without one.
proof fn lemma_no_colon(s: Seq<char>)
    requires
        !s.contains(':'),
    ensures
        !ascii_time(s).contains(':'),
{
    lemma_trim_start_split(s);
    let u = trim_start_seq(s);
    lemma_trim_end_split(u);
    let t = trim_seq(s);
    let k = s.len() - u.len();
    if ascii_time(s).contains(':') {
        let j = choose|j: int| 0 <= j < ascii_time(s).len() && ascii_time(s)[j] == ':';
        assert(ascii_time(s)[j] == ascii_lower_char(t[j]));
        assert(t[j] == u[j]);
        assert(u[j] == s[k + j]);
    }
}

/// Writing two unit-form times one after the other adds them, whatever the
/// case of their letters and the whitespace around them: when `a` and `b`
/// are ASCII without a colon, `a` (trimmed) ends with a unit letter, `a`
/// reads as `x` seconds, `b` as `y`, and the sum fits, then `a + b` reads as
/// `x + y` (for example `1H ` and ` 30m` give `1H  30m`, 5400 seconds).
pub proof fn lemma_parsed_units_add(a: Seq<char>, b: Seq<char>, x: nat, y: nat)
    requires
        is_ascii_text(a),
        is_ascii_text(b),
        !a.contains(':'),
        !b.contains(':'),
        trim_seq(a).len() > 0,
        is_unit(ascii_lower_char(trim_seq(a).last())),
        timestamp_secs(ascii_time(a)) == Ok::<nat, Seq<char>>(x),
        timestamp_secs(ascii_time(b)) == Ok::<nat, Seq<char>>(y),
        x + y <= u64::MAX,
    ensures
        is_ascii_text(a + b),
        timestamp_secs(ascii_time(a + b)) == Ok::<nat, Seq<char>>(x + y),
{
    let s = a + b;
    assert forall|i: int| 0 <= i < s.len() implies (#[trigger] s[i]) as u32 <= 0x7f by {
        if i < a.len() {
            assert(s[i] == a[i]);
        } else {
            assert(s[i] == b[i - a.len()]);
        }
    }
    assert(!s.contains(':')) by {
        if s.contains(':') {
            let k = choose|k: int| 0 <= k < s.len() && s[k] == ':';
            if k < a.len() {
                assert(a[k] == ':');
            } else {
                assert(b[k - a.len()] == ':');
            }
        }
    }
    lemma_no_colon(s);
    lemma_no_colon(b);
    let big_a = ascii_time(a);
    let big_b = ascii_time(b);
    assert(big_b.len() > 0);
    // a = trim_start(a) preceded by whitespace; trim_start(a) = trim(a) + wa.
    let a0 = trim_start_seq(a);
    lemma_trim_end_split(a0);
    let ta = trim_seq(a);
    let wa = a0.subrange(ta.len() as int, a0.len() as int);
    assert(a0 =~= ta + wa);
    // trim_end(b) = lb + trim(b).
    lemma_trim_start_split(b);
    let b0 = trim_start_seq(b);
    let kb = b.len() - b0.len();
    let lb = b.subrange(0, kb);
    assert(b =~= lb + b0);
    lemma_trim_end_append(lb, b0);
    let tb = trim_seq(b);
    assert(tb.len() > 0);
    let eb = trim_end_seq(b);
    assert(eb == lb + tb);
    // trim(a + b) = trim(a) + wa + lb + trim(b).
    lemma_trim_start_append(a, b);
    assert(trim_start_seq(s) == a0 + b);
    lemma_trim_end_append(a0, b);
    assert(trim_seq(s) == a0 + eb);
    let w = wa + lb;
    assert(trim_seq(s) =~= ta + (w + tb));
    assert forall|i: int| 0 <= i < w.len() implies is_ws(#[trigger] w[i]) by {
        if i < wa.len() {
            assert(w[i] == a0[ta.len() + i]);
        } else {
            assert(w[i] == b[i - wa.len()]);
        }
    }
    lemma_lower_concat(ta, w + tb);
    lemma_lower_concat(w, tb);
    lemma_lower_ws(w);
    let lw = ascii_lower(w);
    assert(ascii_time(s) == big_a + (lw + big_b));
    // Scan: through big_a, over the whitespace, then big_b from x.
    assert(big_a.len() == ta.len());
    assert(big_a.last() == ascii_lower_char(ta.last()));
    assert(!big_a.contains(':')) by {
        lemma_no_colon(a);
    }
    lemma_scan_prefix(big_a, lw + big_b, 0, 0, false);
    let ra = scan_units(big_a, 0, 0, false)->Ok_0;
    assert(ra.1);
    assert(ra.0 == x);
    lemma_scan_skip_ws(lw, big_b, 0, x, true);
    lemma_scan_total(big_b, 0, 0, false, x, true);
    assert(0 + x == x);
    assert(scan_units(big_b, 0, 0, false)->Ok_0.0 == y);
    let text = ascii_time(s);
    assert(text.len() > 0);
}

/// `parse_timestamp` where its seconds fit in 64 bits; `None` only where
/// the colon form denotes more (where `parse_timestamp` cannot answer). A
/// text without a colon always gets an answer, `overflow` among the errors.
pub fn parse_timestamp_checked(input: &str) -> (r: Option<Result<u64, String>>)
    ensures
        r is None <==> !timestamp_fits(normalized_time(input@)),
        r is None ==> normalized_time(input@).contains(':'),
        is_ascii_text(input@) ==> (r is None <==> !timestamp_fits(ascii_time(input@))),
        is_ascii_text(input@) ==> (r matches Some(res) ==> secs_result_is(
            res,
            timestamp_secs(ascii_time(input@)),
        )),
        r matches Some(res) ==> secs_result_is(res, timestamp_secs(normalized_time(input@))),
{
    let s = normalize(input);
    if overflows(s.as_slice()) {
        None
    } else {
        Some(parse_timestamp(input))
    }
}

/// `H:MM:SS` when there are whole hours, `M:SS` otherwise.
pub open spec fn human_clock(secs: nat) -> Seq<char> {
    let h = secs / 3600;
    let m = (secs % 3600) / 60;
    let s = secs % 60;
    if h > 0 {
        decimal(h) + seq![':'] + decimal2(m) + seq![':'] + decimal2(s)
    } else {
        decimal(m) + seq![':'] + decimal2(s)
    }
}

/// Renders a position of `secs` seconds as `H:MM:SS` or `M:SS`.
pub fn format_duration_human(secs: u64) -> (r: String)
    ensures
        r@ == human_clock(secs as nat),
{
    let h = secs / 3600;
    let m = (secs % 3600) / 60;
    let s = secs % 60;
    let mut out: Vec<char> = Vec::new();
    if h > 0 {
        push_decimal(&mut out, h);
        out.push(':');
        push_decimal2(&mut out, m);
    } else {
        push_decimal(&mut out, m);
    }
    out.push(':');
    push_decimal2(&mut out, s);
    assert(out@ =~= human_clock(secs as nat));
    string_of(out.as_slice())
}

/// `MM:SS` with whole minutes (at least two digits each) for a known length,
/// `Live/Unknown` for none.
pub open spec fn track_length_text(secs: Option<nat>) -> Seq<char> {
    match secs {
        Some(t) => decimal2(t / 60) + seq![':'] + decimal2(t % 60),
        None => "Live/Unknown"@,
    }
}

/// Renders the length of a track for the now-playing messages.
pub fn format_duration(secs: Option<u64>) -> (r: String)
    ensures
        r@ == track_length_text(match secs {
            Some(t) => Some(t as nat),
            None => None,
        }),
{
    match secs {
        Some(t) => {
            let mut out: Vec<char> = Vec::new();
            push_decimal2(&mut out, t / 60);
            out.push(':');
            push_decimal2(&mut out, t % 60);
            assert(out@ =~= decimal2((t / 60) as nat) + seq![':'] + decimal2((t % 60) as nat));
            string_of(out.as_slice())
        },
        None => String::from_str("Live/Unknown"),
    }
}

/// `M:SS` with whole minutes for a known length, `??:??` for none.
pub open spec fn queue_length_text(secs: Option<nat>) -> Seq<char> {
    match secs {
        Some(t) => decimal(t / 60) + seq![':'] + decimal2(t % 60),
        None => "??:??"@,
    }
}

/// Renders the length of a track for the queue listing.
pub fn format_queue_duration(secs: Option<u64>) -> (r: String)
    ensures
        r@ == queue_length_text(match secs {
            Some(t) => Some(t as nat),
            None => None,
        }),
{
    match secs {
        Some(t) => {
            let mut out: Vec<char> = Vec::new();
            push_decimal(&mut out, t / 60);
            out.push(':');
            push_decimal2(&mut out, t % 60);
            assert(out@ =~= decimal((t / 60) as nat) + seq![':'] + decimal2((t % 60) as nat));
            string_of(out.as_slice())
        },
        None => String::from_str("??:??"),
    }
}

/// The decimal rendering of a number is non-empty ASCII digits that read
/// back as the number.
pub proof fn lemma_decimal(n: nat)
    ensures
        decimal(n).len() > 0,
        all_digits(decimal(n)),
        digits_value(decimal(n)) == n,
    decreases n,
{
    let d = n % 10;
    assert(digit_char(d) as int == 48 + d);
    if n >= 10 {
        lemma_decimal(n / 10);
        let s = decimal(n);
        assert(s.drop_last() == decimal(n / 10));
        assert(s.last() == digit_char(d));
        assert forall|i: int| 0 <= i < s.len() implies is_digit(#[trigger] s[i]) by {
            if i < s.len() - 1 {
                assert(s[i] == decimal(n / 10)[i]);
            }
        }
        assert(digits_value(s) == digits_value(s.drop_last()) * 10 + ((s.last() as int - 48) as nat));
        assert(n / 10 * 10 + d == n);
    } else {
        let s = decimal(n);
        assert(s.drop_last() =~= Seq::<char>::empty());
        assert(digits_value(Seq::<char>::empty()) == 0);
        assert(digits_value(s) == digits_value(s.drop_last()) * 10 + ((s.last() as int - 48) as nat));
    }
}

/// The two-digit rendering of a number reads back as the number.
pub proof fn lemma_decimal2(n: nat)
    ensures
        decimal2(n).len() > 0,
        all_digits(decimal2(n)),
        digits_value(decimal2(n)) == n,
{
    if n < 10 {
        let s = decimal2(n);
        assert(digit_char(n) as int == 48 + n);
        assert(s.drop_last() =~= seq!['0']);
        assert(seq!['0'].drop_last() =~= Seq::<char>::empty());
        assert('0' as int == 48);
        assert(digits_value(Seq::<char>::empty()) == 0);
        assert(digits_value(seq!['0']) == digits_value(seq!['0'].drop_last()) * 10 + (('0' as int
            - 48) as nat));
        assert(digits_value(s) == digits_value(s.drop_last()) * 10 + ((s.last() as int - 48) as nat));
    } else {
        lemma_decimal(n);
    }
}

/// Digits read as a `u64` give their value, when it fits.
pub proof fn lemma_parse_digits(s: Seq<char>)
    requires
        s.len() > 0,
        all_digits(s),
        digits_value(s) <= u64::MAX,
    ensures
        trim_seq(s) == s,
        parse_u64_spec(trim_seq(s)) == Some(digits_value(s)),
        !s.contains(':'),
{
    assert(is_digit(s[0]));
    assert(is_digit(s.last()));
    assert(!is_ws(s[0]));
    assert(!is_ws(s.last()));
    assert(trim_start_seq(s) == s);
    assert(trim_end_seq(s) == s);
    assert(s[0] != '+');
    if s.contains(':') {
        let i = choose|i: int| 0 <= i < s.len() && s[i] == ':';
        assert(is_digit(s[i]));
    }
}

/// Appending text without the separator extends the last piece.
pub proof fn lemma_split_append(p: Seq<char>, t: Seq<char>, sep: char)
    requires
        !t.contains(sep),
    ensures
        ({
            let sp = split_on(p, sep);
            split_on(p + t, sep) == sp.update(sp.len() - 1, sp.last() + t)
        }),
    decreases t.len(),
{
    lemma_split_on_nonempty(p, sep);
    let sp = split_on(p, sep);
    if t.len() == 0 {
        assert(p + t == p);
        assert(sp.last() + t == sp.last());
        assert(sp.update(sp.len() - 1, sp.last()) =~= sp);
    } else {
        let t0 = t.drop_last();
        let c = t.last();
        assert(!t0.contains(sep)) by {
            if t0.contains(sep) {
                let i = choose|i: int| 0 <= i < t0.len() && t0[i] == sep;
                assert(t[i] == sep);
            }
        }
        assert(c != sep) by {
            assert(t[t.len() - 1] == c);
        }
        lemma_split_append(p, t0, sep);
        assert((p + t).drop_last() == p + t0);
        assert((p + t).last() == c);
        let rest = split_on(p + t0, sep);
        assert(rest == sp.update(sp.len() - 1, sp.last() + t0));
        assert(rest.last() == sp.last() + t0);
        assert(rest.last().push(c) == sp.last() + t);
        assert(rest.update(rest.len() - 1, rest.last().push(c)) =~= sp.update(sp.len() - 1, sp.last() + t));
    }
}

/// Splitting pieces joined by the separator gives the pieces back.
pub proof fn lemma_split_join2(a: Seq<char>, b: Seq<char>, sep: char)
    requires
        !a.contains(sep),
        !b.contains(sep),
    ensures
        split_on(a + seq![sep] + b, sep) == seq![a, b],
{
    lemma_split_append(Seq::empty(), a, sep);
    assert(Seq::<char>::empty() + a == a);
    assert(split_on(Seq::<char>::empty(), sep) == seq![Seq::<char>::empty()]);
    assert(split_on(a, sep) =~= seq![a]);
    let ap = a + seq![sep];
    assert(ap.drop_last() == a);
    assert(ap.last() == sep);
    assert(split_on(ap, sep) == seq![a].push(Seq::<char>::empty()));
    lemma_split_append(ap, b, sep);
    assert(ap + b == a + seq![sep] + b);
    assert(seq![a].push(Seq::<char>::empty()).update(1, Seq::<char>::empty() + b) =~= seq![a, b]);
}

/// Splitting three pieces joined by the separator gives them back.
pub proof fn lemma_split_join3(a: Seq<char>, b: Seq<char>, c: Seq<char>, sep: char)
    requires
        !a.contains(sep),
        !b.contains(sep),
        !c.contains(sep),
    ensures
        split_on(a + seq![sep] + b + seq![sep] + c, sep) == seq![a, b, c],
{
    lemma_split_join2(a, b, sep);
    let ab = a + seq![sep] + b;
    let abp = ab + seq![sep];
    assert(abp.drop_last() == ab);
    assert(abp.last() == sep);
    assert(split_on(abp, sep) == seq![a, b].push(Seq::<char>::empty()));
    lemma_split_append(abp, c, sep);
    assert(abp + c == a + seq![sep] + b + seq![sep] + c);
    assert(seq![a, b].push(Seq::<char>::empty()).update(2, Seq::<char>::empty() + c) =~= seq![a, b, c]);
}

/// A position shown as `H:MM:SS` or `M:SS` (as `seek` reports it) reads back,
/// as time text, as the same number of seconds: seeking to the reported
/// position seeks to the same place.
pub proof fn lemma_clock_round_trip(secs: nat)
    requires
        secs <= u64::MAX,
    ensures
        trim_seq(human_clock(secs)) == human_clock(secs),
        timestamp_secs(human_clock(secs)) == Ok::<nat, Seq<char>>(secs),
{
    let h = secs / 3600;
    let m = (secs % 3600) / 60;
    let s = secs % 60;
    assert(h * 3600 + m * 60 + s == secs && m < 60 && s < 60) by (nonlinear_arith)
        requires
            h == secs / 3600,
            m == (secs % 3600) / 60,
            s == secs % 60,
    ;
    lemma_decimal(h);
    lemma_decimal(m);
    lemma_decimal2(m);
    lemma_decimal2(s);
    assert(h <= u64::MAX && m <= u64::MAX && s <= u64::MAX);
    let c = human_clock(secs);
    if h > 0 {
        lemma_parse_digits(decimal(h));
        lemma_parse_digits(decimal2(m));
        lemma_parse_digits(decimal2(s));
        lemma_split_join3(decimal(h), decimal2(m), decimal2(s), ':');
        let parts = split_on(c, ':');
        assert(parts == seq![decimal(h), decimal2(m), decimal2(s)]);
        assert(c[decimal(h).len() as int] == ':');
        assert(c.contains(':'));
        assert(is_digit(c[0]));
        assert(is_digit(c.last()));
    } else {
        lemma_parse_digits(decimal(m));
        lemma_parse_digits(decimal2(s));
        lemma_split_join2(decimal(m), decimal2(s), ':');
        assert(c[decimal(m).len() as int] == ':');
        assert(c.contains(':'));
        assert(is_digit(c[0]));
        assert(is_digit(c.last()));
    }
    assert(!is_ws(c[0]));
    assert(!is_ws(c.last()));
    assert(trim_start_seq(c) == c);
    assert(trim_end_seq(c) == c);
}


/// A colon time of two fields of digits, minutes then seconds, each below
/// 60, reads as those minutes and seconds, however many digits each field
/// is written with: `01:20` and `1:20` are both 80 seconds.
pub proof fn lemma_colon_minutes_seconds(mm: Seq<char>, ss: Seq<char>)
    requires
        mm.len() > 0,
        ss.len() > 0,
        all_digits(mm),
        all_digits(ss),
        digits_value(mm) < 60,
        digits_value(ss) < 60,
    ensures
        timestamp_secs(mm + seq![':'] + ss) == Ok::<nat, Seq<char>>(
            60 * digits_value(mm) + digits_value(ss),
        ),
{
    lemma_parse_digits(mm);
    lemma_parse_digits(ss);
    lemma_split_join2(mm, ss, ':');
    let c = mm + seq![':'] + ss;
    assert(c[mm.len() as int] == ':');
    assert(c.contains(':'));
    assert(split_on(c, ':') == seq![mm, ss]);
}

/// A colon time of three fields of digits, hours, minutes below 60 and
/// seconds below 60, reads as those hours, minutes and seconds, however many
/// digits each field is written with: `01:02:30` is 3750 seconds.
pub proof fn lemma_colon_hours_minutes_seconds(hh: Seq<char>, mm: Seq<char>, ss: Seq<char>)
    requires
        hh.len() > 0,
        mm.len() > 0,
        ss.len() > 0,
        all_digits(hh),
        all_digits(mm),
        all_digits(ss),
        digits_value(hh) <= u64::MAX,
        digits_value(mm) < 60,
        digits_value(ss) < 60,
    ensures
        timestamp_secs(hh + seq![':'] + mm + seq![':'] + ss) == Ok::<nat, Seq<char>>(
            3600 * digits_value(hh) + 60 * digits_value(mm) + digits_value(ss),
        ),
{
    lemma_parse_digits(hh);
    lemma_parse_digits(mm);
    lemma_parse_digits(ss);
    lemma_split_join3(hh, mm, ss, ':');
    let c = hh + seq![':'] + mm + seq![':'] + ss;
    assert(c[hh.len() as int] == ':');
    assert(c.contains(':'));
}

/// Clock-style `MM:SS` (two digits each) reads back as its minutes and
/// seconds: a leading zero in the minutes changes nothing.
pub proof fn lemma_mm_ss_reads_back(m: nat, s: nat)
    requires
        m < 60,
        s < 60,
    ensures
        timestamp_secs(decimal2(m) + seq![':'] + decimal2(s)) == Ok::<nat, Seq<char>>(60 * m + s),
{
    lemma_decimal2(m);
    lemma_decimal2(s);
    lemma_colon_minutes_seconds(decimal2(m), decimal2(s));
}

proof fn lemma_decimal2_two(n: nat)
    requires
        n < 100,
    ensures
        decimal2(n).len() == 2,
{
    if n >= 10 {
        assert(decimal(n) == decimal(n / 10).push(digit_char(n % 10)));
        assert(n / 10 < 10);
    }
}

/// The queue's length text of `t` seconds reads back as `t`: whole
/// minutes (not reduced to hours), a colon, then two digits of seconds.
pub proof fn lemma_queue_length_reads_back(t: nat)
    ensures
        exists|k: int|
            0 < k < queue_length_text(Some(t)).len() && queue_length_text(Some(t))[k] == ':'
                && all_digits(#[trigger] queue_length_text(Some(t)).take(k)) && all_digits(
                queue_length_text(Some(t)).skip(k + 1),
            ) && queue_length_text(Some(t)).skip(k + 1).len() == 2 && digits_value(
                queue_length_text(Some(t)).take(k),
            ) * 60 + digits_value(queue_length_text(Some(t)).skip(k + 1)) == t,
{
    let a = decimal(t / 60);
    let b = decimal2(t % 60);
    lemma_decimal(t / 60);
    lemma_decimal2(t % 60);
    lemma_decimal2_two(t % 60);
    let txt = queue_length_text(Some(t));
    let k = a.len() as int;
    assert(txt == a + seq![':'] + b);
    assert(txt.take(k) =~= a);
    assert(txt.skip(k + 1) =~= b);
    assert(txt[k] == ':');
    assert((t / 60) * 60 + t % 60 == t) by (nonlinear_arith);
}

/// The now-playing length text of `t` seconds reads back as `t`: whole
/// minutes in at least two digits, a colon, then two digits of seconds.
pub proof fn lemma_track_length_reads_back(t: nat)
    ensures
        exists|k: int|
            1 < k < track_length_text(Some(t)).len() && track_length_text(Some(t))[k] == ':'
                && all_digits(#[trigger] track_length_text(Some(t)).take(k)) && all_digits(
                track_length_text(Some(t)).skip(k + 1),
            ) && track_length_text(Some(t)).skip(k + 1).len() == 2 && digits_value(
                track_length_text(Some(t)).take(k),
            ) * 60 + digits_value(track_length_text(Some(t)).skip(k + 1)) == t,
{
    let a = decimal2(t / 60);
    let b = decimal2(t % 60);
    lemma_decimal2(t / 60);
    lemma_decimal2(t % 60);
    lemma_decimal2_two(t % 60);
    if t / 60 < 10 {
        lemma_decimal2_two(t / 60);
    } else {
        lemma_decimal(t / 60);
        assert(decimal(t / 60) == decimal(t / 60 / 10).push(digit_char(t / 60 % 10)));
        lemma_decimal(t / 60 / 10);
    }
    let txt = track_length_text(Some(t));
    let k = a.len() as int;
    assert(txt == a + seq![':'] + b);
    assert(txt.take(k) =~= a);
    assert(txt.skip(k + 1) =~= b);
    assert(txt[k] == ':');
    assert((t / 60) * 60 + t % 60 == t) by (nonlinear_arith);
}
} // verus!
