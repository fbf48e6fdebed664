//! Decoding of a pipe payload `"<pane id>:<title>"` into a rename command.
//!
//! The first colon is the delimiter: everything before it must be a decimal
//! pane id, everything after it (colons included) is the new title. A payload
//! that does not fit this shape decodes to no command at all.

use vstd::prelude::*;

verus! {

/// A parsed rename command: the pane to rename and its new title.
pub struct RenameCommand {
    pub pane_id: u32,
    pub title: String,
}

/// The numeric value of `c` as a decimal digit (meaningful when `is_digit(c)`).
pub open spec fn digit_of(c: char) -> int {
    c as int - '0' as int
}

/// `c` is one of the ten decimal digits.
pub open spec fn is_digit(c: char) -> bool {
    0 <= digit_of(c) && digit_of(c) <= 9
}

/// Every character of `s` is a decimal digit.
pub open spec fn all_digits(s: Seq<char>) -> bool {
    forall|i: int| 0 <= i < s.len() ==> is_digit(s[i])
}

/// The value of a sequence of decimal digits, most significant first.
pub open spec fn digits_value(s: Seq<char>) -> int
    decreases s.len(),
{
    if s.len() == 0 {
        0
    } else {
        digits_value(s.drop_last()) * 10 + digit_of(s.last())
    }
}

/// The digits of an unsigned-integer literal: a single leading `+` sign,
/// if present, is not part of the value.
pub open spec fn digit_part(s: Seq<char>) -> Seq<char> {
    if s.len() > 0 && s[0] == '+' {
        s.skip(1)
    } else {
        s
    }
}

/// `s` is a well-formed pane id: an optional `+` sign, then at least one
/// decimal digit, with a value that fits in `u32`.
pub open spec fn is_pane_id(s: Seq<char>) -> bool {
    &&& digit_part(s).len() > 0
    &&& all_digits(digit_part(s))
    &&& digits_value(digit_part(s)) <= u32::MAX
}

/// The pane id denoted by `s` (meaningful when `is_pane_id(s)`).
pub open spec fn pane_id_value(s: Seq<char>) -> int {
    digits_value(digit_part(s))
}

/// No colon occurs in `s` before position `end`.
pub open spec fn colon_free(s: Seq<char>, end: int) -> bool {
    forall|j: int| 0 <= j < end ==> s[j] != ':'
}

/// Position `i` holds the first colon of `s`.
pub open spec fn splits_at(s: Seq<char>, i: int) -> bool {
    &&& 0 <= i < s.len()
    &&& s[i] == ':'
    &&& colon_free(s, i)
}

/// `s` contains a colon.
pub open spec fn has_colon(s: Seq<char>) -> bool {
    exists|i: int| splits_at(s, i)
}

/// The position of the first colon of `s` (meaningful when `has_colon(s)`).
pub open spec fn first_colon(s: Seq<char>) -> int {
    choose|i: int| splits_at(s, i)
}

/// The command denoted by a payload: split at the first colon, read the part
/// before it as a pane id, and take everything after it as the title. A payload
/// without a colon, or whose id part is not a pane id, denotes no command.
pub open spec fn command_of(payload: Seq<char>) -> Option<(u32, Seq<char>)> {
    if has_colon(payload) {
        let id_part = payload.take(first_colon(payload));
        let title = payload.skip(first_colon(payload) + 1);
        if is_pane_id(id_part) {
            Some((pane_id_value(id_part) as u32, title))
        } else {
            None
        }
    } else {
        None
    }
}

/// The mathematical content of a decoded command.
pub open spec fn command_view(r: Option<RenameCommand>) -> Option<(u32, Seq<char>)> {
    match r {
        Some(c) => Some((c.pane_id, c.title@)),
        None => None,
    }
}

/// A sequence has at most one first colon.
pub proof fn lemma_first_colon_unique(s: Seq<char>, i: int, j: int)
    requires
        splits_at(s, i),
        splits_at(s, j),
    ensures
        i == j,
{
    if i < j {
        assert(s[i] != ':');
    } else if j < i {
        assert(s[j] != ':');
    }
}

/// The value of a digit sequence is never negative.
pub proof fn lemma_digits_value_nonneg(s: Seq<char>)
    requires
        all_digits(s),
    ensures
        digits_value(s) >= 0,
    decreases s.len(),
{
    if s.len() > 0 {
        assert(all_digits(s.drop_last())) by {
            assert(forall|k: int|
                0 <= k < s.drop_last().len() ==> s.drop_last()[k] == s[k]);
        }
        lemma_digits_value_nonneg(s.drop_last());
    }
}

/// Extending a digit sequence by one digit multiplies its value by ten and
/// adds the new digit.
pub proof fn lemma_digits_value_step(s: Seq<char>, k: int)
    requires
        0 <= k < s.len(),
    ensures
        digits_value(s.take(k + 1)) == digits_value(s.take(k)) * 10 + digit_of(s[k]),
{
    assert(s.take(k + 1).drop_last() =~= s.take(k));
    assert(s.take(k + 1).last() == s[k]);
}

/// A prefix of a digit sequence never has a larger value than the whole.
pub proof fn lemma_digits_value_prefix_le(s: Seq<char>, i: int)
    requires
        all_digits(s),
        0 <= i <= s.len(),
    ensures
        digits_value(s.take(i)) <= digits_value(s),
    decreases s.len(),
{
    if i < s.len() {
        assert(all_digits(s.drop_last())) by {
            assert(forall|k: int|
                0 <= k < s.drop_last().len() ==> s.drop_last()[k] == s[k]);
        }
        assert(s.take(i) =~= s.drop_last().take(i));
        lemma_digits_value_prefix_le(s.drop_last(), i);
        lemma_digits_value_nonneg(s.drop_last());
        assert(is_digit(s.last()));
    } else {
        assert(s.take(i) =~= s);
    }
}

/// Parse a decimal pane id, exactly as `is_pane_id` describes it: an optional
/// leading `+`, then one or more digits whose value fits in `u32`. Anything
/// else (an empty string, a sign alone, a stray character, a too-large value)
/// parses to nothing.
pub fn parse_pane_id(s: &str) -> (r: Option<u32>)
    ensures
        is_pane_id(s@) ==> r == Some(pane_id_value(s@) as u32),
        !is_pane_id(s@) ==> r is None,
{
    let n: usize = s.unicode_len();
    if n == 0 {
        return None;
    }
    let start: usize = if s.get_char(0) == '+' {
        1
    } else {
        0
    };
    let ghost d: Seq<char> = digit_part(s@);
    proof {
        assert(d =~= s@.skip(start as int));
    }
    if start == n {
        // a sign with no digits after it
        return None;
    }
    let mut value: u32 = 0;
    let mut i: usize = start;
    while i < n
        invariant
            start <= i <= n,
            n == s@.len(),
            d == digit_part(s@),
            d =~= s@.skip(start as int),
            all_digits(d.take(i - start)),
            value == digits_value(d.take(i - start)),
        decreases n - i,
    {
        let c: char = s.get_char(i);
        let v: u32 = c as u32;
        proof {
            assert(d[i - start] == s@[i as int]);
        }
        if v < 48 || v > 57 {
            proof {
                assert(!is_digit(d[i - start]));
            }
            return None;
        }
        let digit: u32 = v - 48;
        proof {
            lemma_digits_value_step(d, i - start);
        }
        let next: Option<u32> = match value.checked_mul(10) {
            Some(m) => m.checked_add(digit),
            None => None,
        };
        match next {
            Some(grown) => {
                value = grown;
            },
            None => {
                proof {
                    assert(digits_value(d.take(i - start + 1)) > u32::MAX);
                    if all_digits(d) {
                        lemma_digits_value_prefix_le(d, i - start + 1);
                    }
                }
                return None;
            },
        }
        i = i + 1;
    }
    proof {
        assert(d.take(i - start) =~= d);
    }
    Some(value)
}

/// Split at the first colon: the part before it and the part after it, or
/// nothing when no colon occurs.
pub fn split_at_colon<'a>(s: &'a str) -> (r: Option<(&'a str, &'a str)>)
    ensures
        has_colon(s@) ==> (r matches Some(p) && p.0@ == s@.take(first_colon(s@))
            && p.1@ == s@.skip(first_colon(s@) + 1)),
        !has_colon(s@) ==> r is None,
{
    let n: usize = s.unicode_len();
    let mut i: usize = 0;
    while i < n
        invariant
            0 <= i <= n,
            n == s@.len(),
            colon_free(s@, i as int),
        decreases n - i,
    {
        let c: char = s.get_char(i);
        if c == ':' {
            proof {
                assert(splits_at(s@, i as int));
                assert(has_colon(s@));
                lemma_first_colon_unique(s@, i as int, first_colon(s@));
            }
            let before = s.substring_char(0, i);
            let after = s.substring_char(i + 1, n);
            proof {
                assert(before@ =~= s@.take(i as int));
                assert(after@ =~= s@.skip(i + 1));
            }
            return Some((before, after));
        }
        i = i + 1;
    }
    proof {
        if has_colon(s@) {
            let ghost k: int = first_colon(s@);
            assert(splits_at(s@, k));
            assert(s@[k] != ':');
        }
    }
    None
}

/// Decode a payload into the rename command it denotes, if any: split at the
/// first colon, parse the part before it as a pane id, and keep everything
/// after it — colons included — as the title.
pub fn parse_command(payload: &str) -> (r: Option<RenameCommand>)
    ensures
        command_view(r) == command_of(payload@),
{
    match split_at_colon(payload) {
        Some((id_part, title)) => match parse_pane_id(id_part) {
            Some(pane_id) => Some(RenameCommand { pane_id, title: title.to_owned() }),
            None => None,
        },
        None => None,
    }
}

/// Law: a payload written as a pane id, one colon, and an arbitrary title —
/// which may itself contain colons — decodes to exactly that id and exactly
/// that title.
pub proof fn lemma_well_formed_payload_decodes(id_part: Seq<char>, title: Seq<char>)
    requires
        is_pane_id(id_part),
    ensures
        command_of(id_part + seq![':'] + title)
            == Some((pane_id_value(id_part) as u32, title)),
{
    let payload = id_part + seq![':'] + title;
    assert(payload[id_part.len() as int] == ':');
    assert forall|j: int| 0 <= j < id_part.len() implies payload[j] != ':' by {
        assert(payload[j] == id_part[j]);
        let dp = digit_part(id_part);
        if id_part[0] == '+' {
            if j > 0 {
                assert(id_part[j] == dp[j - 1]);
                assert(is_digit(dp[j - 1]));
            }
        } else {
            assert(is_digit(dp[j]));
        }
    }
    assert(splits_at(payload, id_part.len() as int));
    assert(has_colon(payload));
    lemma_first_colon_unique(payload, id_part.len() as int, first_colon(payload));
    assert(payload.take(id_part.len() as int) =~= id_part);
    assert(payload.skip(id_part.len() as int + 1) =~= title);
}

} // verus!
