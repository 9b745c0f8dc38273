//! Names: what the name of a clip directory says about the clip, and how
//! the output file is called.

use vstd::prelude::*;
use crate::error::ExportError;
use crate::text::{
    all_digits, chars_of, decimal, decimal_string, is_digit, last_component, last_component_of,
    lemma_decimal_digits, lemma_decimal_parses_back, lemma_last_component_of_join,
    parse_unsigned, parse_unsigned_range, starts_with_at,
};

verus! {

/// `s` without every leading repetition of `prefix`.
pub open spec fn trim_start_matches(s: Seq<char>, prefix: Seq<char>) -> Seq<char>
    decreases s.len(),
{
    if prefix.len() > 0 && prefix.is_prefix_of(s) {
        trim_start_matches(s.skip(prefix.len() as int), prefix)
    } else {
        s
    }
}

/// The index of the first `c` in `s`, or the length of `s` where it holds
/// none.
pub open spec fn first_index_of(s: Seq<char>, c: char) -> int
    decreases s.len(),
{
    if s.len() == 0 {
        0
    } else if s[0] == c {
        0
    } else {
        1 + first_index_of(s.drop_first(), c)
    }
}

/// The field number `k`, counted from 0, of `s` split at every `sep`;
/// `None` where `s` has no more than `k` fields.
pub open spec fn field(s: Seq<char>, sep: char, k: nat) -> Option<Seq<char>>
    decreases k,
{
    let end = first_index_of(s, sep);
    if k == 0 {
        Some(s.take(end))
    } else if end >= s.len() {
        None
    } else {
        field(s.skip(end + 1), sep, (k - 1) as nat)
    }
}

/// The application identifier, the date and the time of a clip directory,
/// given by its path or by its name alone. The name, which is the last
/// component of the path, is read without its leading `clip_` prefixes and
/// split at every `_`; its first three fields must each be an unsigned
/// 64-bit decimal number. What follows the third field is not looked at.
pub open spec fn clip_fields(path: Seq<char>) -> Option<(nat, nat, nat)> {
    let rest = trim_start_matches(last_component(path), "clip_"@);
    match (field(rest, '_', 0), field(rest, '_', 1), field(rest, '_', 2)) {
        (Some(id), Some(date), Some(time)) => match (
            parse_unsigned(id, u64::MAX as nat),
            parse_unsigned(date, u64::MAX as nat),
            parse_unsigned(time, u64::MAX as nat),
        ) {
            (Some(id), Some(date), Some(time)) => Some((id, date, time)),
            _ => None,
        },
        _ => None,
    }
}

/// The name of the output file, without its extension: the title, the date
/// and the time, with one space between them.
pub open spec fn output_name(title: Seq<char>, date: nat, time: nat) -> Seq<char> {
    title + seq![' '] + decimal(date) + seq![' '] + decimal(time)
}

/// The name that a clip directory is given: `clip_`, the application's
/// identifier, the date and the time, with `_` between them.
pub open spec fn clip_dir_name(id: nat, date: nat, time: nat) -> Seq<char> {
    "clip_"@ + decimal(id) + seq!['_'] + decimal(date) + seq!['_'] + decimal(time)
}

/// The first field of digits that are followed by `_` and more is the
/// digits, and the fields after it are those of the rest.
proof fn lemma_field_of_digits(digits: Seq<char>, rest: Seq<char>)
    requires
        all_digits(digits),
    ensures
        first_index_of(digits + seq!['_'] + rest, '_') == digits.len(),
        field(digits + seq!['_'] + rest, '_', 0) == Some(digits),
        forall|k: nat| k > 0 ==> field(digits + seq!['_'] + rest, '_', k) == field(
            rest,
            '_',
            (k - 1) as nat,
        ),
{
    let s = digits + seq!['_'] + rest;
    assert forall|j: int| 0 <= j < digits.len() implies s[j] != '_' by {
        assert(s[j] == digits[j]);
        assert(is_digit(digits[j]));
    }
    assert(s[digits.len() as int] == '_');
    lemma_first_index_of_is(s, '_', digits.len() as int);
    assert(s.take(digits.len() as int) =~= digits);
    assert(s.skip(digits.len() as int + 1) =~= rest);
}

/// Digits alone are one field.
proof fn lemma_field_of_last_digits(digits: Seq<char>)
    requires
        all_digits(digits),
    ensures
        field(digits, '_', 0) == Some(digits),
{
    assert forall|j: int| 0 <= j < digits.len() implies digits[j] != '_' by {
        assert(is_digit(digits[j]));
    }
    lemma_first_index_of_is(digits, '_', digits.len() as int);
    assert(digits.take(digits.len() as int) =~= digits);
}

/// A clip directory's name reads back as what it was made of, whether it
/// stands alone or behind parent directories, and whether or not `/`
/// follow it.
pub proof fn lemma_clip_name_round_trip(
    parent: Seq<char>,
    id: nat,
    date: nat,
    time: nat,
    slashes: Seq<char>,
)
    requires
        parent.len() == 0 || parent.last() == '/',
        forall|i: int| 0 <= i < slashes.len() ==> slashes[i] == '/',
        id <= u64::MAX,
        date <= u64::MAX,
        time <= u64::MAX,
    ensures
        clip_fields(parent + clip_dir_name(id, date, time) + slashes) == Some((id, date, time)),
{
    reveal_strlit("clip_");
    let prefix = "clip_"@;
    let a = decimal(id);
    let b = decimal(date);
    let c = decimal(time);
    lemma_decimal_digits(id);
    lemma_decimal_digits(date);
    lemma_decimal_digits(time);
    lemma_decimal_parses_back(id, u64::MAX as nat);
    lemma_decimal_parses_back(date, u64::MAX as nat);
    lemma_decimal_parses_back(time, u64::MAX as nat);
    let name = clip_dir_name(id, date, time);
    let rest1 = b + seq!['_'] + c;
    let rest = a + seq!['_'] + rest1;
    assert(name =~= prefix + rest);
    assert forall|i: int| 0 <= i < name.len() implies name[i] != '/' by {
        if i < 5 {
            assert(name[i] == prefix[i]);
        } else if i < 5 + a.len() {
            assert(name[i] == a[i - 5]);
            assert(is_digit(a[i - 5]));
        } else if i == 5 + a.len() {
            assert(name[i] == '_');
        } else if i < 5 + a.len() + 1 + b.len() {
            assert(name[i] == b[i - 5 - a.len() - 1]);
            assert(is_digit(b[i - 5 - a.len() - 1]));
        } else if i == 5 + a.len() + 1 + b.len() {
            assert(name[i] == '_');
        } else {
            assert(name[i] == c[i - 5 - a.len() - 1 - b.len() - 1]);
            assert(is_digit(c[i - 5 - a.len() - 1 - b.len() - 1]));
        }
    }
    lemma_last_component_of_join(parent, name, slashes);
    assert(trim_start_matches(name, prefix) == rest) by {
        assert(prefix.is_prefix_of(name)) by {
            assert(name.subrange(0, 5) =~= prefix);
        }
        assert(name.skip(5) =~= rest);
        assert(rest[0] == a[0]);
        assert(is_digit(a[0]));
        assert(!prefix.is_prefix_of(rest)) by {
            if prefix.is_prefix_of(rest) {
                assert(rest.subrange(0, 5)[0] == prefix[0]);
            }
        }
        assert(trim_start_matches(rest, prefix) == rest);
    }
    lemma_field_of_digits(a, rest1);
    lemma_field_of_digits(b, c);
    lemma_field_of_last_digits(c);
    assert(a + seq!['_'] + rest1 =~= rest);
    assert(field(rest, '_', 1) == field(rest1, '_', 0));
    assert(field(rest, '_', 2) == field(rest1, '_', 1));
    assert(field(rest1, '_', 1) == field(c, '_', 0));
}

/// `first_index_of` finds a `c` before which no other stands.
pub proof fn lemma_first_index_of(s: Seq<char>, c: char)
    ensures
        0 <= first_index_of(s, c) <= s.len(),
        first_index_of(s, c) < s.len() ==> s[first_index_of(s, c)] == c,
        forall|j: int| 0 <= j < first_index_of(s, c) ==> s[j] != c,
    decreases s.len(),
{
    if s.len() > 0 && s[0] != c {
        let rest = s.drop_first();
        lemma_first_index_of(rest, c);
        assert forall|j: int| 0 <= j < first_index_of(s, c) implies s[j] != c by {
            if j > 0 {
                assert(rest[j - 1] == s[j]);
            }
        }
    }
}

/// An index that is preceded by no `c`, and holds one unless it is the
/// length, is the first one.
pub proof fn lemma_first_index_of_is(s: Seq<char>, c: char, i: int)
    requires
        0 <= i <= s.len(),
        i < s.len() ==> s[i] == c,
        forall|j: int| 0 <= j < i ==> s[j] != c,
    ensures
        first_index_of(s, c) == i,
{
    lemma_first_index_of(s, c);
}

/// The index of the first `c` in `text` at or after `from`, or the length
/// of `text`.
fn find_first(text: &Vec<char>, from: usize, c: char) -> (at: usize)
    requires
        from <= text.len(),
    ensures
        from <= at <= text.len(),
        at - from == first_index_of(text@.skip(from as int), c),
{
    let mut i: usize = from;
    while i < text.len() && text[i] != c
        invariant
            from <= i <= text.len(),
            forall|j: int| from <= j < i ==> text@[j] != c,
        decreases text.len() - i,
    {
        i += 1;
    }
    proof {
        lemma_first_index_of_is(text@.skip(from as int), c, i - from);
    }
    i
}

/// Reads the application identifier, the date and the time of a clip
/// directory from its path or from its name alone, such as
/// `clip_238960_20240815_015514`.
pub fn parse_clip_string(clip_string: &str) -> (parsed: Result<(u64, u64, u64), ExportError>)
    ensures
        match clip_fields(clip_string@) {
            Some((id, date, time)) => parsed == Ok::<(u64, u64, u64), ExportError>(
                (id as u64, date as u64, time as u64),
            ),
            None => parsed == Err::<(u64, u64, u64), ExportError>(
                ExportError::UnreadableClipName,
            ),
        },
{
    let letters: Vec<char> = chars_of(clip_string);
    let text: Vec<char> = last_component_of(&letters);
    let prefix: Vec<char> = chars_of("clip_");
    let n: usize = text.len();
    proof {
        reveal_strlit("clip_");
    }
    let mut start: usize = 0;
    assert(text@.skip(0) =~= text@);
    while starts_with_at(&text, start, &prefix)
        invariant
            start <= n,
            n == text.len(),
            prefix@ == "clip_"@,
            prefix@.len() == 5,
            trim_start_matches(text@, prefix@) == trim_start_matches(
                text@.skip(start as int),
                prefix@,
            ),
        decreases n - start,
    {
        assert(text@.skip(start as int).skip(5) =~= text@.skip(start + 5));
        start += 5;
    }
    let ghost rest = text@.skip(start as int);
    assert(trim_start_matches(last_component(clip_string@), "clip_"@) == rest);

    let end0: usize = find_first(&text, start, '_');
    assert(rest.take(end0 - start) =~= text@.subrange(start as int, end0 as int));
    let id = parse_unsigned_range(&text, start, end0, u64::MAX);
    if end0 >= n {
        assert(field(rest, '_', 1) is None);
        return Err(ExportError::UnreadableClipName);
    }
    let ghost rest1 = text@.skip(end0 + 1);
    assert(rest.skip(end0 - start + 1) =~= rest1);
    assert(field(rest, '_', 1) == field(rest1, '_', 0));

    let end1: usize = find_first(&text, end0 + 1, '_');
    assert(rest1.take(end1 - end0 - 1) =~= text@.subrange(end0 + 1, end1 as int));
    let date = parse_unsigned_range(&text, end0 + 1, end1, u64::MAX);
    assert(field(rest, '_', 2) == field(rest1, '_', 1));
    if end1 >= n {
        assert(field(rest1, '_', 1) is None);
        return Err(ExportError::UnreadableClipName);
    }
    let ghost rest2 = text@.skip(end1 + 1);
    assert(rest1.skip(end1 - end0 - 1 + 1) =~= rest2);
    assert(field(rest1, '_', 1) == field(rest2, '_', 0));

    let end2: usize = find_first(&text, end1 + 1, '_');
    assert(rest2.take(end2 - end1 - 1) =~= text@.subrange(end1 + 1, end2 as int));
    let time = parse_unsigned_range(&text, end1 + 1, end2, u64::MAX);
    match (id, date, time) {
        (Some(id), Some(date), Some(time)) => Ok((id, date, time)),
        _ => Err(ExportError::UnreadableClipName),
    }
}

/// The name of the output file of a clip, without its extension.
pub fn clip_output_name(title: &str, date: u64, time: u64) -> (name: String)
    ensures
        name@ == output_name(title@, date as nat, time as nat),
{
    proof {
        reveal_strlit(" ");
    }
    let mut name: String = String::from_str(title);
    name.append(" ");
    name.append(decimal_string(date).as_str());
    name.append(" ");
    name.append(decimal_string(time).as_str());
    assert(name@ =~= output_name(title@, date as nat, time as nat));
    name
}

} // verus!
