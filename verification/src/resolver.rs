//! Finding the job server's transport in a coordination string.
//!
//! The coordination string is a row of flags with spaces between them. The
//! flag `--jobserver-auth=` names the transport, and where it stands more
//! than once the rightmost one counts.
//!
//! * `--jobserver-auth=fifo:PATH` names a pipe in the file system. The path
//!   ends before the next space or with the string. If this form stands
//!   anywhere in the string it wins over the other form, wherever that one
//!   stands.
//! * `--jobserver-auth=R,W` names two descriptors. The form is recognised by
//!   the character right behind the `=`, which is a digit or a minus sign.
//!   What follows, up to the next space or the end, must then be two integers
//!   with one comma between them.

use crate::decimal::{decimal_i32, is_digit, lemma_decimal_characters, parse_i32};
use crate::style::{JobServerStyle, ParseFailure, ParseJobserverAuthError, Transport};
use crate::text::{
    chars_of, find_last, is_last_occurrence, is_span, last_occurrence, lemma_last_occurrence,
    lemma_last_occurrence_is, lemma_span, lemma_until_stop, occurs, occurs_at, span, span_len,
    split, until,
};
use vstd::prelude::*;
use vstd::slice::*;
use vstd::string::*;

verus! {

/// The flag that names the transport.
pub open spec fn auth_marker() -> Seq<char> {
    "--jobserver-auth="@
}

/// The flag that names a pipe in the file system.
pub open spec fn fifo_marker() -> Seq<char> {
    auth_marker() + "fifo:"@
}

/// The text of `s` from index `from` up to the next space, or to the end of
/// `s` if no space follows.
pub open spec fn word_from(s: Seq<char>, from: int) -> Seq<char> {
    until(s.skip(from), ' ')
}

/// `word` begins as a pair of descriptors does: with a digit or a minus sign.
pub open spec fn starts_descriptors(word: Seq<char>) -> bool {
    word.len() > 0 && (word[0] == '-' || is_digit(word[0]))
}

/// The two descriptors that `word` names: it must be two fields with one
/// comma between them, each the decimal notation of an `i32`.
pub open spec fn descriptor_pair(word: Seq<char>) -> Option<(i32, i32)> {
    let fields = split(word, ',');
    if fields.len() == 2 {
        match (decimal_i32(fields[0]), decimal_i32(fields[1])) {
            (Some(read), Some(write)) => Some((read, write)),
            _ => None,
        }
    } else {
        None
    }
}

/// What the descriptor form yields for the word behind its marker.
pub open spec fn resolve_descriptors(text: Seq<char>, word: Seq<char>) -> Result<
    Transport,
    ParseFailure,
> {
    if starts_descriptors(word) {
        match descriptor_pair(word) {
            Some((read, write)) => Ok(Transport::DescriptorPair(read as int, write as int)),
            None => Err(ParseFailure::InvalidPipeDescriptors),
        }
    } else {
        Err(ParseFailure::InvalidJobServerAuth(text))
    }
}

/// The transport that the coordination string `text` names, or why it names
/// none.
pub open spec fn resolve(text: Seq<char>) -> Result<Transport, ParseFailure> {
    match last_occurrence(text, fifo_marker()) {
        Some(at) => Ok(Transport::NamedPipe(word_from(text, at + fifo_marker().len()))),
        None => match last_occurrence(text, auth_marker()) {
            Some(at) => resolve_descriptors(text, word_from(text, at + auth_marker().len())),
            None => Err(ParseFailure::InvalidJobServerAuth(text)),
        },
    }
}

/// A text always splits into at least one piece.
pub proof fn lemma_split_nonempty(s: Seq<char>, sep: char)
    ensures
        split(s, sep).len() >= 1,
    decreases s.len(),
{
    let n = span(s, sep) as int;
    if n < s.len() {
        lemma_split_nonempty(s.skip(n + 1), sep);
    }
}

/// The word that starts at `from` is `word`, if `word` holds no space and
/// what follows it in `text` is nothing or begins with a space.
proof fn lemma_word_from(text: Seq<char>, from: int, word: Seq<char>, after: Seq<char>)
    requires
        0 <= from <= text.len(),
        text.skip(from) == word + after,
        !word.contains(' '),
        after.len() == 0 || after[0] == ' ',
    ensures
        word_from(text, from) == word,
{
    if after.len() == 0 {
        assert(word + after == word);
        lemma_until_stop(word, ' ', Seq::empty());
    } else {
        assert(word + after == word + seq![' '] + after.skip(1));
        lemma_until_stop(word, ' ', after.skip(1));
    }
}

/// The fifo flag holds the plain flag at its start, so a text without the
/// plain flag holds no fifo flag.
pub proof fn lemma_fifo_is_auth(text: Seq<char>, at: int)
    requires
        occurs_at(text, fifo_marker(), at),
    ensures
        occurs_at(text, auth_marker(), at),
{
    let fifo = fifo_marker();
    let auth = auth_marker();
    assert(text.subrange(at, at + auth.len()) == text.subrange(at, at + fifo.len()).take(
        auth.len() as int,
    ));
    assert(fifo.take(auth.len() as int) == auth);
}

/// A path behind the fifo flag that runs to the end of the string is the
/// result as it stands.
///
/// `text` is `before`, the fifo flag and `path`, where `path` holds no space.
/// The flag must be the rightmost fifo flag of `text`: a path that itself
/// holds the flag is left out.
pub proof fn law_fifo_path_to_end(before: Seq<char>, path: Seq<char>)
    requires
        !path.contains(' '),
        forall|later: int|
            before.len() < later ==> !occurs_at(
                before + fifo_marker() + path,
                fifo_marker(),
                later,
            ),
    ensures
        resolve(before + fifo_marker() + path) == Ok::<Transport, ParseFailure>(
            Transport::NamedPipe(path),
        ),
{
    law_fifo_path_to_space(before, path, Seq::empty());
    assert(before + fifo_marker() + path + Seq::<char>::empty() == before + fifo_marker() + path);
}

/// A path behind the fifo flag ends at the next space: what follows the
/// space does not reach the result.
///
/// `text` is `before`, the fifo flag, `path` and `after`, where `path` holds
/// no space and `after` is empty or begins with a space. The flag must be the
/// rightmost fifo flag of `text`: one more fifo flag in `path` or in `after`
/// is left out.
pub proof fn law_fifo_path_to_space(before: Seq<char>, path: Seq<char>, after: Seq<char>)
    requires
        !path.contains(' '),
        after.len() == 0 || after[0] == ' ',
        forall|later: int|
            before.len() < later ==> !occurs_at(
                before + fifo_marker() + path + after,
                fifo_marker(),
                later,
            ),
    ensures
        resolve(before + fifo_marker() + path + after) == Ok::<Transport, ParseFailure>(
            Transport::NamedPipe(path),
        ),
{
    let marker = fifo_marker();
    let text = before + marker + path + after;
    let at = before.len() as int;
    assert(text.subrange(at, at + marker.len()) == marker);
    assert(is_last_occurrence(text, marker, at));
    lemma_last_occurrence_is(text, marker, at);
    assert(text.skip(at + marker.len()) == path + after);
    lemma_word_from(text, at + marker.len(), path, after);
}

/// Of several fifo flags the rightmost decides: whatever stands before a
/// fifo flag, another fifo flag included, does not reach the result.
pub proof fn law_last_fifo_flag_decides(before: Seq<char>, tail: Seq<char>)
    requires
        occurs_at(tail, fifo_marker(), 0),
    ensures
        resolve(before + tail) == resolve(tail),
{
    let marker = fifo_marker();
    let text = before + tail;
    let shift = before.len() as int;
    lemma_last_occurrence(tail, marker);
    let at = last_occurrence(tail, marker).unwrap();
    assert(text.subrange(shift + at, shift + at + marker.len()) == tail.subrange(
        at,
        at + marker.len(),
    ));
    assert forall|later: int| shift + at < later implies !occurs_at(text, marker, later) by {
        if occurs_at(text, marker, later) {
            assert(tail.subrange(later - shift, later - shift + marker.len()) == text.subrange(
                later,
                later + marker.len(),
            ));
            assert(occurs_at(tail, marker, later - shift));
        }
    }
    lemma_last_occurrence_is(text, marker, shift + at);
    assert(text.skip(shift + at + marker.len()) == tail.skip(at + marker.len()));
}

/// Two integers behind the flag, with a comma between them, are the two
/// descriptors, the first to read from and the second to write to. Either
/// may be negative.
///
/// `text` is `before`, the flag, the two numbers with their comma, and
/// `after`, which is empty or begins with a space. The flag must be the
/// rightmost one in `text`, and `text` must hold no fifo flag, which would
/// win. The first number is written without a plus sign.
pub proof fn law_descriptor_pair(
    before: Seq<char>,
    read_text: Seq<char>,
    write_text: Seq<char>,
    after: Seq<char>,
    read: i32,
    write: i32,
)
    requires
        decimal_i32(read_text) == Some(read),
        decimal_i32(write_text) == Some(write),
        read_text[0] != '+',
        after.len() == 0 || after[0] == ' ',
        !occurs(
            before + auth_marker() + read_text + seq![','] + write_text + after,
            fifo_marker(),
        ),
        is_last_occurrence(
            before + auth_marker() + read_text + seq![','] + write_text + after,
            auth_marker(),
            before.len() as int,
        ),
    ensures
        resolve(before + auth_marker() + read_text + seq![','] + write_text + after) == Ok::<
            Transport,
            ParseFailure,
        >(Transport::DescriptorPair(read as int, write as int)),
{
    let marker = auth_marker();
    let word = read_text + seq![','] + write_text;
    let text = before + marker + read_text + seq![','] + write_text + after;
    let at = before.len() as int;
    lemma_decimal_characters(read_text);
    lemma_decimal_characters(write_text);
    assert forall|i: int| 0 <= i < word.len() implies word[i] != ' ' by {
        if i < read_text.len() {
            assert(word[i] == read_text[i]);
        } else if i > read_text.len() {
            assert(word[i] == write_text[i - read_text.len() - 1]);
        }
    }
    assert(!word.contains(' '));
    assert(!read_text.contains(','));
    assert(!write_text.contains(','));
    assert(text.skip(at + marker.len()) == word + after);
    lemma_word_from(text, at + marker.len(), word, after);
    lemma_last_occurrence_is(text, marker, at);
    assert(word[0] == read_text[0]);
    lemma_two_fields(read_text, write_text);
}

/// Two texts without a comma, joined by a comma, split into those two.
proof fn lemma_two_fields(first: Seq<char>, second: Seq<char>)
    requires
        !first.contains(','),
        !second.contains(','),
    ensures
        split(first + seq![','] + second, ',') == seq![first, second],
{
    let word = first + seq![','] + second;
    let n = first.len() as int;
    assert(span(word, ',') == n) by {
        assert forall|i: int| 0 <= i < n implies word[i] != ',' by {
            if first[i] == ',' {
                assert(first.contains(','));
            }
        }
        assert(is_span(word, ',', n));
        lemma_span(word, ',', n);
    }
    assert(span(second, ',') == second.len()) by {
        assert forall|i: int| 0 <= i < second.len() implies second[i] != ',' by {
            if second[i] == ',' {
                assert(second.contains(','));
            }
        }
        assert(is_span(second, ',', second.len() as int));
        lemma_span(second, ',', second.len() as int);
    }
    assert(word.take(n) == first);
    assert(word.skip(n + 1) == second);
    assert(split(second, ',') == seq![second]);
    assert(split(word, ',') == seq![first] + split(second, ','));
}

/// A word behind the flag that begins as descriptors do, but is not two
/// fields with one comma between them, is refused as such: three fields, or
/// one, are no pair.
///
/// `text` is `before`, the flag, `word` and `after`, where `word` holds no
/// space and `after` is empty or begins with a space. The flag must be the
/// rightmost one in `text`, and `text` must hold no fifo flag.
pub proof fn law_field_count(before: Seq<char>, word: Seq<char>, after: Seq<char>)
    requires
        starts_descriptors(word),
        split(word, ',').len() != 2,
        !word.contains(' '),
        after.len() == 0 || after[0] == ' ',
        !occurs(before + auth_marker() + word + after, fifo_marker()),
        is_last_occurrence(
            before + auth_marker() + word + after,
            auth_marker(),
            before.len() as int,
        ),
    ensures
        resolve(before + auth_marker() + word + after) == Err::<Transport, ParseFailure>(
            ParseFailure::InvalidPipeDescriptors,
        ),
{
    let marker = auth_marker();
    let text = before + marker + word + after;
    let at = before.len() as int;
    assert(text.skip(at + marker.len()) == word + after);
    lemma_word_from(text, at + marker.len(), word, after);
    lemma_last_occurrence_is(text, marker, at);
}

/// A string without the flag names no transport, and comes back whole in
/// the error.
pub proof fn law_no_flag(text: Seq<char>)
    requires
        !occurs(text, auth_marker()),
    ensures
        resolve(text) == Err::<Transport, ParseFailure>(ParseFailure::InvalidJobServerAuth(text)),
{
    assert forall|at: int| !occurs_at(text, fifo_marker(), at) by {
        if occurs_at(text, fifo_marker(), at) {
            lemma_fifo_is_auth(text, at);
        }
    }
}

/// The two descriptors that `word` names, if it names two.
pub fn parse_descriptor_pair(word: &[char]) -> (pair: Option<(i32, i32)>)
    ensures
        pair == descriptor_pair(word@),
{
    let comma: usize = span_len(word, ',');
    if comma == word.len() {
        return None;
    }
    let first = slice_subrange(word, 0, comma);
    let tail = slice_subrange(word, comma + 1, word.len());
    let next: usize = span_len(tail, ',');
    assert(first@ == word@.take(comma as int));
    assert(tail@ == word@.skip(comma + 1));
    if next < tail.len() {
        proof {
            lemma_split_nonempty(tail@.skip(next + 1), ',');
            assert(split(tail@, ',') == seq![tail@.take(next as int)] + split(
                tail@.skip(next + 1),
                ',',
            ));
            assert(split(word@, ',') == seq![first@] + split(tail@, ','));
        }
        return None;
    }
    proof {
        assert(split(tail@, ',') == seq![tail@]);
        assert(split(word@, ',') == seq![first@] + split(tail@, ','));
        assert(split(word@, ',') == seq![first@, tail@]);
    }
    match (parse_i32(first), parse_i32(tail)) {
        (Some(read), Some(write)) => Some((read, write)),
        _ => None,
    }
}

/// Whether the coordination string `makeflags` holds the flag that names a
/// transport, whatever stands behind it.
pub fn names_jobserver(makeflags: &str) -> (named: bool)
    ensures
        named == occurs(makeflags@, auth_marker()),
{
    let text = chars_of(makeflags);
    let auth = chars_of("--jobserver-auth=");
    find_last(text.as_slice(), auth.as_slice()).is_some()
}

/// Finds the transport that the coordination string `makeflags` names.
///
/// The rightmost `--jobserver-auth=fifo:` decides, if there is one: the
/// result is the path behind it. Else the rightmost `--jobserver-auth=`
/// decides: behind it must stand two descriptors. A string with neither, or
/// with something else behind the flag, is returned whole in the error. No
/// string names a semaphore.
pub fn parse_jobserver_auth<'a>(makeflags: &'a str) -> (r: Result<
    JobServerStyle<'a>,
    ParseJobserverAuthError,
>)
    ensures
        match r {
            Ok(style) => resolve(makeflags@) == Ok::<Transport, ParseFailure>(style@),
            Err(error) => resolve(makeflags@) == Err::<Transport, ParseFailure>(error@),
        },
        !(r matches Ok(JobServerStyle::Sem)),
{
    let text = chars_of(makeflags);
    let fifo = chars_of("--jobserver-auth=fifo:");
    let auth = chars_of("--jobserver-auth=");
    proof {
        reveal_strlit("--jobserver-auth=fifo:");
        reveal_strlit("--jobserver-auth=");
        reveal_strlit("fifo:");
        assert(fifo@ == fifo_marker());
    }
    if let Some(at) = find_last(text.as_slice(), fifo.as_slice()) {
        let end: usize = text.len();
        assert(occurs_at(text@, fifo@, at as int));
        let from: usize = at + fifo.len();
        let rest = slice_subrange(text.as_slice(), from, end);
        let len: usize = span_len(rest, ' ');
        let path = makeflags.substring_char(from, from + len);
        assert(path@ == word_from(makeflags@, from as int));
        return Ok(JobServerStyle::Fifo(path));
    }
    if let Some(at) = find_last(text.as_slice(), auth.as_slice()) {
        let end: usize = text.len();
        assert(occurs_at(text@, auth@, at as int));
        let from: usize = at + auth.len();
        let rest = slice_subrange(text.as_slice(), from, end);
        let word = slice_subrange(rest, 0, span_len(rest, ' '));
        assert(word@ == word_from(makeflags@, from as int));
        if word.len() > 0 && (word[0] == '-' || (word[0] >= '0' && word[0] <= '9')) {
            return match parse_descriptor_pair(word) {
                Some((read, write)) => Ok(JobServerStyle::Pipe(read, write)),
                None => Err(ParseJobserverAuthError::InvalidPipeDescriptors),
            };
        }
    }
    Err(ParseJobserverAuthError::InvalidJobServerAuth(makeflags.to_owned()))
}

} // verus!
