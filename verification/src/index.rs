//! Keys of the assertion index and how they are scanned.
//!
//! An assertion is indexed under its subject and facet with a NUL between
//! them. Keys are ordered by their UTF-8 bytes, so that the keys of a subject
//! stand in one range.

use crate::text::{joined, same_text};
use vstd::prelude::*;
use vstd::slice::slice_to_vec;
use vstd::string::*;

verus! {

/// `a` stands before `b` in the order of byte sequences: the first difference
/// decides, and a sequence stands behind each of its beginnings.
pub open spec fn bytes_less(a: Seq<u8>, b: Seq<u8>) -> bool
    decreases a.len(),
{
    if b.len() == 0 {
        false
    } else if a.len() == 0 {
        true
    } else if a[0] != b[0] {
        a[0] < b[0]
    } else {
        bytes_less(a.skip(1), b.skip(1))
    }
}

/// One of two different sequences stands before the other.
pub proof fn bytes_less_total(a: Seq<u8>, b: Seq<u8>)
    ensures
        bytes_less(a, b) || bytes_less(b, a) || a == b,
        !(bytes_less(a, b) && bytes_less(b, a)),
        !bytes_less(a, a),
    decreases a.len(),
{
    if a.len() > 0 && b.len() > 0 {
        bytes_less_total(a.skip(1), b.skip(1));
        if a[0] == b[0] && a.skip(1) == b.skip(1) {
            assert(a =~= seq![a[0]] + a.skip(1));
            assert(b =~= seq![b[0]] + b.skip(1));
        }
    } else if a.len() == 0 && b.len() == 0 {
        assert(a =~= b);
    }
    if a.len() > 0 {
        bytes_less_total(a.skip(1), a.skip(1));
    }
}

/// The order is transitive.
pub proof fn bytes_less_transitive(a: Seq<u8>, b: Seq<u8>, c: Seq<u8>)
    requires
        bytes_less(a, b),
        bytes_less(b, c),
    ensures
        bytes_less(a, c),
    decreases a.len(),
{
    if a.len() > 0 && b.len() > 0 && c.len() > 0 && a[0] == b[0] && b[0] == c[0] {
        bytes_less_transitive(a.skip(1), b.skip(1), c.skip(1));
    }
}

/// A common beginning does not matter.
proof fn bytes_less_behind(q: Seq<u8>, a: Seq<u8>, b: Seq<u8>)
    ensures
        bytes_less(q + a, q + b) == bytes_less(a, b),
    decreases q.len(),
{
    if q.len() == 0 {
        assert(q + a =~= a);
        assert(q + b =~= b);
    } else {
        bytes_less_behind(q.skip(1), a, b);
        assert((q + a).skip(1) =~= q.skip(1) + a);
        assert((q + b).skip(1) =~= q.skip(1) + b);
    }
}

/// What stands between two sequences with a common beginning has it too.
proof fn bytes_between(q: Seq<u8>, low: Seq<u8>, high: Seq<u8>, key: Seq<u8>)
    requires
        !bytes_less(key, q + low),
        bytes_less(key, q + high),
    ensures
        q.is_prefix_of(key),
    decreases q.len(),
{
    if q.len() > 0 {
        assert(key.len() > 0);
        assert((q + low).skip(1) =~= q.skip(1) + low);
        assert((q + high).skip(1) =~= q.skip(1) + high);
        bytes_between(q.skip(1), low, high, key.skip(1));
        assert(q =~= key.take(q.len() as int)) by {
            assert forall|i: int| 0 <= i < q.len() implies q[i] == key[i] by {
                if i > 0 {
                    assert(q.skip(1)[i - 1] == key.skip(1)[i - 1]);
                }
            }
        }
    }
}

/// Every byte is the highest one.
pub open spec fn all_ff(bytes: Seq<u8>) -> bool {
    forall|i: int| 0 <= i < bytes.len() ==> #[trigger] bytes[i] == 0xFF
}

/// What does not stand before a row of highest bytes begins with it.
proof fn not_before_ff(key: Seq<u8>, f: Seq<u8>)
    requires
        all_ff(f),
    ensures
        !bytes_less(key, f) <==> f.is_prefix_of(key),
    decreases f.len(),
{
    if f.len() > 0 {
        assert(f[0] == 0xFF);
        if key.len() > 0 {
            assert forall|i: int| 0 <= i < f.skip(1).len() implies #[trigger] f.skip(1)[i]
                == 0xFF by {
                assert(f[i + 1] == 0xFF);
            }
            not_before_ff(key.skip(1), f.skip(1));
            if !bytes_less(key, f) {
                assert(f =~= key.take(f.len() as int)) by {
                    assert forall|i: int| 0 <= i < f.len() implies f[i] == key[i] by {
                        if i > 0 {
                            assert(f.skip(1)[i - 1] == key.skip(1)[i - 1]);
                        }
                    }
                }
            }
            if f.is_prefix_of(key) {
                assert(f.skip(1) =~= key.skip(1).take(f.len() - 1)) by {
                    assert forall|i: int| 0 <= i < f.len() - 1 implies f.skip(1)[i] == key.skip(
                        1,
                    )[i] by {
                        assert(f[i + 1] == key[i + 1]);
                    }
                }
            }
        }
    }
}

/// `next` is the prefix with its last byte that is not the highest one raised
/// by one, and everything behind that byte gone.
pub open spec fn is_successor(prefix: Seq<u8>, next: Seq<u8>) -> bool {
    let n = next.len() as int - 1;
    &&& 0 <= n < prefix.len()
    &&& prefix[n] < 0xFF
    &&& next == prefix.take(n).push((prefix[n] + 1) as u8)
    &&& all_ff(prefix.skip(n + 1))
}

/// The keys from a prefix up to its successor are exactly those that begin with
/// the prefix.
pub proof fn law_successor_bounds_prefix(prefix: Seq<u8>, next: Seq<u8>, key: Seq<u8>)
    requires
        is_successor(prefix, next),
    ensures
        !bytes_less(key, prefix) && bytes_less(key, next) <==> prefix.is_prefix_of(key),
{
    let n = next.len() as int - 1;
    let q = prefix.take(n);
    let low = prefix.skip(n);
    let high = seq![next[n]];
    assert(prefix =~= q + low);
    assert(next =~= q + high);
    let f = prefix.skip(n + 1);
    assert(low.skip(1) =~= f);
    if !bytes_less(key, prefix) && bytes_less(key, next) {
        bytes_between(q, low, high, key);
        let r = key.skip(n);
        assert(key =~= q + r);
        bytes_less_behind(q, r, low);
        bytes_less_behind(q, r, high);
        assert(r.len() > 0);
        assert(high.skip(1) =~= Seq::<u8>::empty());
        assert(!bytes_less(r.skip(1), high.skip(1)));
        assert(r[0] == low[0]);
        not_before_ff(r.skip(1), f);
        assert(prefix =~= key.take(prefix.len() as int)) by {
            assert forall|i: int| 0 <= i < prefix.len() implies prefix[i] == key[i] by {
                if i < n {
                    assert(q[i] == key[i]);
                } else if i > n {
                    assert(f[i - n - 1] == r.skip(1)[i - n - 1]);
                }
            }
        }
    }
    if prefix.is_prefix_of(key) {
        let rest = key.skip(prefix.len() as int);
        assert(key =~= prefix + rest);
        bytes_less_behind(prefix, rest, Seq::empty());
        assert(prefix + Seq::<u8>::empty() =~= prefix);
        assert(key =~= q + (low + rest));
        bytes_less_behind(q, low + rest, high);
        assert((low + rest)[0] == prefix[n]);
    }
}

/// Where every byte of a prefix is the highest one, the keys from it on are
/// exactly those that begin with it.
pub proof fn law_no_successor_bounds_prefix(prefix: Seq<u8>, key: Seq<u8>)
    requires
        all_ff(prefix),
    ensures
        !bytes_less(key, prefix) <==> prefix.is_prefix_of(key),
{
    not_before_ff(key, prefix);
}

/// Compute the successor of a prefix; none where every byte is the highest one.
pub fn successor(prefix: &[u8]) -> (next: Option<Vec<u8>>)
    ensures
        match next {
            Some(s) => is_successor(prefix@, s@),
            None => all_ff(prefix@),
        },
{
    let mut next: Vec<u8> = slice_to_vec(prefix);
    while next.len() > 0
        invariant
            next@.len() <= prefix@.len(),
            next@ == prefix@.take(next@.len() as int),
            all_ff(prefix@.skip(next@.len() as int)),
        decreases next@.len(),
    {
        let n: usize = next.len() - 1;
        let last: u8 = next[n];
        let _ = next.pop();
        proof {
            assert(next@ =~= prefix@.take(n as int));
            assert(last == prefix@[n as int]);
        }
        if last < 0xFF {
            next.push(last + 1);
            assert(is_successor(prefix@, next@));
            return Some(next);
        }
        proof {
            let tail = prefix@.skip(n + 1);
            let longer = prefix@.skip(n as int);
            assert forall|i: int| 0 <= i < longer.len() implies #[trigger] longer[i] == 0xFF by {
                if i > 0 {
                    assert(tail[i - 1] == 0xFF);
                }
            }
        }
    }
    assert(prefix@.skip(0) =~= prefix@);
    None
}

/// The key of an assertion: its subject and its facet with a NUL between them.
pub open spec fn key_of(subject: Seq<char>, facet: Seq<char>) -> Seq<char> {
    subject + "\0"@ + facet
}

/// The encoding of two texts in a row is their encodings in a row.
proof fn encode_in_a_row(a: Seq<char>, b: Seq<char>)
    ensures
        vstd::utf8::encode_utf8(a + b) == vstd::utf8::encode_utf8(a) + vstd::utf8::encode_utf8(b),
    decreases a.len(),
{
    if a.len() == 0 {
        assert(a + b =~= b);
        assert(vstd::utf8::encode_utf8(a) + vstd::utf8::encode_utf8(b)
            =~= vstd::utf8::encode_utf8(b));
    } else {
        encode_in_a_row(a.drop_first(), b);
        assert((a + b).drop_first() =~= a.drop_first() + b);
        assert(vstd::utf8::encode_utf8(a + b) =~= vstd::utf8::encode_utf8(a)
            + vstd::utf8::encode_utf8(b));
    }
}

/// Only the NUL character is encoded with a NUL byte.
proof fn scalar_without_nul(c: u32, i: int)
    requires
        c != 0,
        0 <= i < vstd::utf8::encode_scalar(c).len(),
    ensures
        vstd::utf8::encode_scalar(c)[i] != 0,
{
    assert(c != 0 && c <= 0x7F ==> (c & 0x7F) as u8 != 0) by (bit_vector);
    assert(0xC0u8 | ((c >> 6) & 0x1F) as u8 != 0) by (bit_vector);
    assert(0xE0u8 | ((c >> 12) & 0x0F) as u8 != 0) by (bit_vector);
    assert(0xF0u8 | ((c >> 18) & 0x7) as u8 != 0) by (bit_vector);
    assert(0x80u8 | (c & 0x3F) as u8 != 0) by (bit_vector);
    assert(0x80u8 | ((c >> 6) & 0x3F) as u8 != 0) by (bit_vector);
    assert(0x80u8 | ((c >> 12) & 0x3F) as u8 != 0) by (bit_vector);
}

/// A text without a NUL is encoded without a NUL byte.
proof fn encode_without_nul(text: Seq<char>, i: int)
    requires
        !text.contains('\0'),
        0 <= i < vstd::utf8::encode_utf8(text).len(),
    ensures
        vstd::utf8::encode_utf8(text)[i] != 0,
    decreases text.len(),
{
    let first = vstd::utf8::encode_scalar(text[0] as u32);
    let rest = text.drop_first();
    assert(text[0] != '\0');
    vstd::utf8::char_u32_cast(text[0], text[0] as u32);
    vstd::utf8::char_u32_cast('\0', '\0' as u32);
    assert('\0' as u32 == 0);
    if i < first.len() {
        scalar_without_nul(text[0] as u32, i);
    } else {
        assert(!rest.contains('\0')) by {
            if rest.contains('\0') {
                let j = choose|j: int| 0 <= j < rest.len() && rest[j] == '\0';
                assert(text[j + 1] == '\0');
            }
        }
        encode_without_nul(rest, i - first.len());
    }
}

/// The encoding of a text with a NUL behind it.
proof fn encode_with_nul(text: Seq<char>)
    ensures
        vstd::utf8::encode_utf8(text + "\0"@) == vstd::utf8::encode_utf8(text).push(0u8),
{
    reveal_strlit("\0");
    encode_in_a_row(text, "\0"@);
    vstd::utf8::is_ascii_chars_encode_utf8("\0"@);
    assert(vstd::utf8::encode_utf8("\0"@) =~= seq![0u8]);
    assert(vstd::utf8::encode_utf8(text) + seq![0u8] =~= vstd::utf8::encode_utf8(text).push(0u8));
}

/// A subject with the character behind the NUL is the successor, byte by byte,
/// of the subject with the NUL.
proof fn subject_end_is_successor(subject: Seq<char>)
    ensures
        is_successor(
            vstd::utf8::encode_utf8(subject + "\0"@),
            vstd::utf8::encode_utf8(subject + "\u{1}"@),
        ),
{
    reveal_strlit("\u{1}");
    encode_with_nul(subject);
    encode_in_a_row(subject, "\u{1}"@);
    vstd::utf8::is_ascii_chars_encode_utf8("\u{1}"@);
    assert(vstd::utf8::encode_utf8("\u{1}"@) =~= seq![1u8]);
    let bytes = vstd::utf8::encode_utf8(subject);
    let prefix = bytes.push(0u8);
    let next = vstd::utf8::encode_utf8(subject + "\u{1}"@);
    assert(next =~= prefix.take(bytes.len() as int).push(1u8));
}

/// The key of an assertion.
pub fn assertion_key(subject: &str, facet: &str) -> (key: String)
    ensures
        key@ == key_of(subject@, facet@),
{
    let mut key = joined(subject, "\0");
    key.append(facet);
    key
}

/// The range of the keys of a subject, whatever the facet: from the first text
/// on, up to the second without it.
pub fn subject_range(subject: &str) -> (range: (String, String))
    ensures
        range.0@ == subject@ + "\0"@,
        range.1@ == subject@ + "\u{1}"@,
        is_successor(
            vstd::utf8::encode_utf8(range.0@),
            vstd::utf8::encode_utf8(range.1@),
        ),
{
    proof {
        subject_end_is_successor(subject@);
    }
    (joined(subject, "\0"), joined(subject, "\u{1}"))
}

/// A scan of the range of a subject finds the keys of its assertions and of no
/// other subject, where subjects hold no NUL.
pub proof fn law_subject_scan_is_exact(
    subject: Seq<char>,
    other: Seq<char>,
    facet: Seq<char>,
)
    requires
        !subject.contains('\0'),
        !other.contains('\0'),
    ensures
        ({
            let start = vstd::utf8::encode_utf8(subject + "\0"@);
            let end = vstd::utf8::encode_utf8(subject + "\u{1}"@);
            let key = vstd::utf8::encode_utf8(key_of(other, facet));
            !bytes_less(key, start) && bytes_less(key, end) <==> subject == other
        }),
{
    let start = vstd::utf8::encode_utf8(subject + "\0"@);
    let end = vstd::utf8::encode_utf8(subject + "\u{1}"@);
    let key = vstd::utf8::encode_utf8(key_of(other, facet));
    subject_end_is_successor(subject);
    law_successor_bounds_prefix(start, end, key);
    encode_with_nul(subject);
    encode_with_nul(other);
    encode_in_a_row(other + "\0"@, facet);
    let s = vstd::utf8::encode_utf8(subject);
    let o = vstd::utf8::encode_utf8(other);
    let tail = vstd::utf8::encode_utf8(facet);
    assert(key == o.push(0u8) + tail);
    if subject == other {
        assert(start =~= key.take(start.len() as int));
    }
    if start.is_prefix_of(key) {
        assert(start == s.push(0u8));
        if s.len() < o.len() {
            assert(start[s.len() as int] == key[s.len() as int]);
            assert(key[s.len() as int] == o[s.len() as int]);
            encode_without_nul(other, s.len() as int);
        }
        if s.len() > o.len() {
            assert(start[o.len() as int] == key[o.len() as int]);
            assert(start[o.len() as int] == s[o.len() as int]);
            encode_without_nul(subject, o.len() as int);
        }
        assert(s =~= o) by {
            assert forall|i: int| 0 <= i < s.len() implies s[i] == o[i] by {
                assert(start[i] == key[i]);
            }
        }
        vstd::utf8::encode_utf8_decode_utf8(subject);
        vstd::utf8::encode_utf8_decode_utf8(other);
    }
}

/// `a` stands before `b` in the order of texts, which is that of their bytes.
pub open spec fn text_less(a: Seq<char>, b: Seq<char>) -> bool {
    bytes_less(vstd::utf8::encode_utf8(a), vstd::utf8::encode_utf8(b))
}

/// Each text stands before all that follow it.
pub open spec fn ascending(texts: Seq<Seq<char>>) -> bool {
    forall|i: int, j: int|
        0 <= i < j < texts.len() ==> text_less(#[trigger] texts[i], #[trigger] texts[j])
}

/// Whether `a` stands before `b`.
fn bytes_before(a: &[u8], b: &[u8]) -> (before: bool)
    ensures
        before == bytes_less(a@, b@),
{
    let mut i: usize = 0;
    assert(a@.skip(0) =~= a@);
    assert(b@.skip(0) =~= b@);
    while i < a.len() && i < b.len()
        invariant
            i <= a@.len(),
            i <= b@.len(),
            bytes_less(a@, b@) == bytes_less(a@.skip(i as int), b@.skip(i as int)),
        decreases a@.len() - i,
    {
        if a[i] != b[i] {
            return a[i] < b[i];
        }
        assert(a@.skip(i as int).skip(1) =~= a@.skip(i + 1));
        assert(b@.skip(i as int).skip(1) =~= b@.skip(i + 1));
        i = i + 1;
    }
    i < b.len()
}

/// Where `text` belongs among ascending texts: those before the position stand
/// before it, those from it on do not.
fn place_of(texts: &Vec<String>, text: &str) -> (at: usize)
    ensures
        at <= texts@.len(),
        forall|i: int| 0 <= i < at ==> text_less(#[trigger] crate::text::texts(texts@)[i], text@),
        at < texts@.len() ==> !text_less(crate::text::texts(texts@)[at as int], text@),
{
    let mut i: usize = 0;
    while i < texts.len()
        invariant
            i <= texts@.len(),
            forall|j: int|
                0 <= j < i ==> text_less(#[trigger] crate::text::texts(texts@)[j], text@),
        decreases texts@.len() - i,
    {
        if !bytes_before(texts[i].as_str().as_bytes(), text.as_bytes()) {
            return i;
        }
        i = i + 1;
    }
    i
}

/// A text put where it belongs keeps the texts ascending.
proof fn ascending_insert(texts: Seq<Seq<char>>, at: int, text: Seq<char>)
    requires
        ascending(texts),
        0 <= at <= texts.len(),
        forall|i: int| 0 <= i < at ==> text_less(#[trigger] texts[i], text),
        at < texts.len() ==> text_less(text, texts[at]),
    ensures
        ascending(texts.insert(at, text)),
{
    let longer = texts.insert(at, text);
    assert forall|i: int, j: int| 0 <= i < j < longer.len() implies text_less(
        #[trigger] longer[i],
        #[trigger] longer[j],
    ) by {
        if i == at && j > at + 1 {
            assert(text_less(texts[at], texts[j - 1]));
            bytes_less_transitive(
                vstd::utf8::encode_utf8(text),
                vstd::utf8::encode_utf8(texts[at]),
                vstd::utf8::encode_utf8(texts[j - 1]),
            );
        } else if i < at && j > at {
            assert(text_less(texts[i], texts[j - 1]));
        } else if i > at {
            assert(text_less(texts[i - 1], texts[j - 1]));
        }
    }
}

/// The assertions are the texts found, in ascending order, each once.
pub open spec fn collected(found: Seq<Seq<char>>, assertions: Seq<Seq<char>>) -> bool {
    &&& ascending(assertions)
    &&& forall|t: Seq<char>| assertions.contains(t) <==> #[trigger] found.contains(t)
}

/// What an index query returns: the texts found, in ascending order, each once.
pub fn collect_assertions(found: Vec<String>) -> (assertions: Vec<String>)
    ensures
        collected(crate::text::texts(found@), crate::text::texts(assertions@)),
{
    let mut assertions: Vec<String> = Vec::new();
    let mut i: usize = 0;
    let ghost names = crate::text::texts(found@);
    assert(crate::text::texts(assertions@) =~= Seq::<Seq<char>>::empty());
    assert(names.take(0) =~= Seq::<Seq<char>>::empty());
    while i < found.len()
        invariant
            i <= found@.len(),
            names == crate::text::texts(found@),
            ascending(crate::text::texts(assertions@)),
            forall|t: Seq<char>|
                crate::text::texts(assertions@).contains(t) <==> #[trigger] names.take(
                    i as int,
                ).contains(t),
        decreases found@.len() - i,
    {
        let text = found[i].clone();
        let at: usize = place_of(&assertions, text.as_str());
        let ghost before = crate::text::texts(assertions@);
        let ghost name = text@;
        let present = at < assertions.len() && same_text(assertions[at].as_str(), text.as_str());
        assert(names[i as int] == name);
        if !present {
            proof {
                if at < before.len() {
                    bytes_less_total(
                        vstd::utf8::encode_utf8(before[at as int]),
                        vstd::utf8::encode_utf8(name),
                    );
                    vstd::utf8::encode_utf8_decode_utf8(before[at as int]);
                    vstd::utf8::encode_utf8_decode_utf8(name);
                }
                ascending_insert(before, at as int, name);
            }
            assertions.insert(at, text);
            assert(crate::text::texts(assertions@) =~= before.insert(at as int, name));
        }
        proof {
            let now = crate::text::texts(assertions@);
            assert forall|t: Seq<char>| now.contains(t) <==> #[trigger] names.take(i + 1).contains(
                t,
            ) by {
                contains_insert(before, at as int, name, t);
                contains_take(names, i as int, t);
                if present {
                    assert(before[at as int] == name);
                }
            }
        }
        i = i + 1;
    }
    assert(names.take(i as int) =~= names);
    assertions
}

/// The scan of a range of keys found these texts: they are what the table holds
/// under the keys from `start` on, up to `end` without it.
pub open spec fn scanned(
    table: Set<(Seq<char>, Seq<char>)>,
    start: Seq<char>,
    end: Seq<char>,
    found: Seq<Seq<char>>,
) -> bool {
    forall|t: Seq<char>| #[trigger]
        found.contains(t) <==> exists|key: Seq<char>| #[trigger]
            table.contains((key, t)) && !text_less(key, start) && text_less(key, end)
}

/// The assertion was put into the index under some facet of the subject.
pub open spec fn asserted(
    table: Set<(Seq<char>, Seq<char>)>,
    subject: Seq<char>,
    assertion: Seq<char>,
) -> bool {
    exists|facet: Seq<char>| #[trigger] table.contains((key_of(subject, facet), assertion))
}

/// A query for a subject returns in ascending order, each once, the assertions
/// that were put for it under whichever facet, and none that was put for another
/// subject, not even for one that the subject is the beginning of. Subjects hold
/// no NUL.
pub proof fn law_subject_query(
    table: Set<(Seq<char>, Seq<char>)>,
    subject: Seq<char>,
    found: Seq<Seq<char>>,
    assertions: Seq<Seq<char>>,
)
    requires
        !subject.contains('\0'),
        forall|entry: (Seq<char>, Seq<char>)| #[trigger]
            table.contains(entry) ==> exists|other: Seq<char>, facet: Seq<char>|
                !other.contains('\0') && entry.0 == #[trigger] key_of(other, facet),
        scanned(table, subject + "\0"@, subject + "\u{1}"@, found),
        collected(found, assertions),
    ensures
        ascending(assertions),
        assertions.no_duplicates(),
        forall|t: Seq<char>| #[trigger] assertions.contains(t) <==> asserted(table, subject, t),
{
    let start = subject + "\0"@;
    let end = subject + "\u{1}"@;
    assert forall|t: Seq<char>| #[trigger]
        assertions.contains(t) <==> asserted(table, subject, t) by {
        assert(assertions.contains(t) <==> found.contains(t));
        if found.contains(t) {
            let key = choose|key: Seq<char>| #[trigger]
                table.contains((key, t)) && !text_less(key, start) && text_less(key, end);
            let (other, facet) = choose|other: Seq<char>, facet: Seq<char>|
                !other.contains('\0') && key == #[trigger] key_of(other, facet);
            law_subject_scan_is_exact(subject, other, facet);
            assert(table.contains((key_of(subject, facet), t)));
        }
        if asserted(table, subject, t) {
            let facet = choose|facet: Seq<char>| #[trigger]
                table.contains((key_of(subject, facet), t));
            law_subject_scan_is_exact(subject, subject, facet);
            assert(table.contains((key_of(subject, facet), t)));
        }
    }
    assert forall|i: int, j: int|
        0 <= i < assertions.len() && 0 <= j < assertions.len() && i
            != j implies assertions[i] != assertions[j] by {
        let (a, b) = if i < j {
            (i, j)
        } else {
            (j, i)
        };
        assert(text_less(assertions[a], assertions[b]));
        let bytes = vstd::utf8::encode_utf8(assertions[a]);
        bytes_less_total(bytes, bytes);
    }
}

/// What is among the texts with one more put in.
proof fn contains_insert(texts: Seq<Seq<char>>, at: int, text: Seq<char>, t: Seq<char>)
    requires
        0 <= at <= texts.len(),
    ensures
        texts.insert(at, text).contains(t) <==> texts.contains(t) || t == text,
{
    let longer = texts.insert(at, text);
    if longer.contains(t) {
        let k = choose|k: int| 0 <= k < longer.len() && longer[k] == t;
        if k < at {
            assert(texts[k] == t);
        } else if k > at {
            assert(texts[k - 1] == t);
        }
    }
    if texts.contains(t) {
        let k = choose|k: int| 0 <= k < texts.len() && texts[k] == t;
        assert(longer[if k < at { k } else { k + 1 }] == t);
    }
    assert(longer[at] == text);
}

/// What is among the first texts and one more.
proof fn contains_take(texts: Seq<Seq<char>>, i: int, t: Seq<char>)
    requires
        0 <= i < texts.len(),
    ensures
        texts.take(i + 1).contains(t) <==> texts.take(i).contains(t) || t == texts[i],
{
    assert(texts.take(i + 1) =~= texts.take(i).insert(i, texts[i]));
    contains_insert(texts.take(i), i, texts[i], t);
}

/// One sequence stands before another exactly where, behind a common beginning, it
/// ends first or has the lower byte.
pub proof fn law_byte_order(a: Seq<u8>, b: Seq<u8>)
    ensures
        bytes_less(a, b) <==> exists|n: int|
            {
                &&& 0 <= n < b.len()
                &&& n <= a.len()
                &&& #[trigger] a.take(n) == b.take(n)
                &&& n < a.len() ==> a[n] < b[n]
            },
    decreases a.len(),
{
    if a.len() > 0 && b.len() > 0 && a[0] == b[0] {
        let c = a.skip(1);
        let d = b.skip(1);
        law_byte_order(c, d);
        if bytes_less(c, d) {
            let n = choose|n: int|
                {
                    &&& 0 <= n < d.len()
                    &&& n <= c.len()
                    &&& #[trigger] c.take(n) == d.take(n)
                    &&& n < c.len() ==> c[n] < d[n]
                };
            assert(a.take(n + 1) =~= seq![a[0]] + c.take(n));
            assert(b.take(n + 1) =~= seq![b[0]] + d.take(n));
        }
        if exists|n: int|
            {
                &&& 0 <= n < b.len()
                &&& n <= a.len()
                &&& #[trigger] a.take(n) == b.take(n)
                &&& n < a.len() ==> a[n] < b[n]
            } {
            let n = choose|n: int|
                {
                    &&& 0 <= n < b.len()
                    &&& n <= a.len()
                    &&& #[trigger] a.take(n) == b.take(n)
                    &&& n < a.len() ==> a[n] < b[n]
                };
            assert(n > 0);
            assert(c.take(n - 1) =~= a.take(n).skip(1));
            assert(d.take(n - 1) =~= b.take(n).skip(1));
        }
    } else if a.len() > 0 && b.len() > 0 {
        assert(a.take(0) =~= b.take(0));
        assert forall|n: int|
            0 < n < b.len() && n <= a.len() && #[trigger] a.take(n) == b.take(n) implies false by {
            assert(a.take(n)[0] == b.take(n)[0]);
        }
    } else {
        assert(a.take(0) =~= b.take(0));
    }
}

/// The key of an assertion holds its subject, a NUL and its facet, and nothing else;
/// where subjects hold no NUL, two assertions share a key only where both are the same.
pub proof fn law_assertion_key(
    subject: &str,
    facet: &str,
    key: String,
    other_subject: &str,
    other_facet: &str,
    other_key: String,
)
    requires
        call_ensures(assertion_key, (subject, facet), key),
        call_ensures(assertion_key, (other_subject, other_facet), other_key),
    ensures
        key@.len() == subject@.len() + 1 + facet@.len(),
        key@.take(subject@.len() as int) == subject@,
        key@[subject@.len() as int] == '\0',
        key@.skip(subject@.len() as int + 1) == facet@,
        !subject@.contains('\0') && !other_subject@.contains('\0') && key@ == other_key@
            ==> subject@ == other_subject@ && facet@ == other_facet@,
{
    reveal_strlit("\0");
    assert(key@.take(subject@.len() as int) =~= subject@);
    assert(key@.skip(subject@.len() as int + 1) =~= facet@);
    assert(other_key@.take(other_subject@.len() as int) =~= other_subject@);
    assert(other_key@.skip(other_subject@.len() as int + 1) =~= other_facet@);
    assert(other_key@[other_subject@.len() as int] == '\0');
    if !subject@.contains('\0') && !other_subject@.contains('\0') && key@ == other_key@ {
        if subject@.len() < other_subject@.len() {
            assert(other_subject@[subject@.len() as int] == other_key@[subject@.len() as int]);
        }
        if subject@.len() > other_subject@.len() {
            assert(subject@[other_subject@.len() as int] == key@[other_subject@.len() as int]);
        }
    }
}

/// The key of an assertion is in the range of a subject exactly where the subject is
/// its own. Subjects hold no NUL.
pub proof fn law_subject_range(
    subject: &str,
    range: (String, String),
    other: &str,
    facet: &str,
    key: String,
)
    requires
        call_ensures(subject_range, (subject,), range),
        call_ensures(assertion_key, (other, facet), key),
        !subject@.contains('\0'),
        !other@.contains('\0'),
    ensures
        ({
            let bytes = vstd::utf8::encode_utf8(key@);
            subject@ == other@ <==> !bytes_less(bytes, vstd::utf8::encode_utf8(range.0@))
                && bytes_less(bytes, vstd::utf8::encode_utf8(range.1@))
        }),
{
    law_subject_scan_is_exact(subject@, other@, facet@);
}

/// What a query returns is what was found, in the order of its bytes and each once.
pub proof fn law_collected_assertions(found: Vec<String>, assertions: Vec<String>)
    requires
        call_ensures(collect_assertions, (found,), assertions),
    ensures
        forall|i: int, j: int|
            0 <= i < j < assertions@.len() ==> bytes_less(
                vstd::utf8::encode_utf8((#[trigger] assertions@[i])@),
                vstd::utf8::encode_utf8((#[trigger] assertions@[j])@),
            ) && assertions@[i]@ != assertions@[j]@,
        forall|i: int|
            0 <= i < assertions@.len() ==> crate::text::texts(found@).contains(
                (#[trigger] assertions@[i])@,
            ),
        forall|k: int|
            0 <= k < found@.len() ==> crate::text::texts(assertions@).contains(
                (#[trigger] found@[k])@,
            ),
{
    let before = crate::text::texts(found@);
    let after = crate::text::texts(assertions@);
    assert forall|i: int, j: int| 0 <= i < j < assertions@.len() implies bytes_less(
        vstd::utf8::encode_utf8((#[trigger] assertions@[i])@),
        vstd::utf8::encode_utf8((#[trigger] assertions@[j])@),
    ) && assertions@[i]@ != assertions@[j]@ by {
        assert(text_less(after[i], after[j]));
        let bytes = vstd::utf8::encode_utf8(after[i]);
        bytes_less_total(bytes, bytes);
    }
    assert forall|i: int| 0 <= i < assertions@.len() implies before.contains(
        (#[trigger] assertions@[i])@,
    ) by {
        assert(after.contains(after[i]));
    }
    assert forall|k: int| 0 <= k < found@.len() implies after.contains(
        (#[trigger] found@[k])@,
    ) by {
        assert(before.contains(before[k]));
    }
}

} // verus!
