//! Names as sequences of characters: white space and trimming, case folding,
//! and the lexicographic order by which names are sorted.

use vstd::prelude::*;

verus! {

/// Whether `c` is white space. Stands for the answer of `char::is_whitespace`,
/// which goes by a table of the Unicode standard.
pub uninterp spec fn is_space(c: char) -> bool;

/// The lowercase form of `s`. Stands for the result of `str::to_lowercase`,
/// which goes by the case mappings of the Unicode standard.
pub uninterp spec fn lowercase(s: Seq<char>) -> Seq<char>;

/// Calls `char::is_whitespace`. Believed, not proved: the answer depends on the
/// character alone and is the one that `is_space` names.
#[verifier::external_body]
fn char_is_space(c: char) -> (b: bool)
    ensures
        b == is_space(c),
{
    c.is_whitespace()
}

/// Calls `str::to_lowercase`. Believed, not proved: the result depends on the
/// characters of `s` alone and is the text that `lowercase` names.
#[verifier::external_body]
pub(crate) fn to_lowercase(s: &str) -> (r: String)
    ensures
        r@ == lowercase(s@),
{
    s.to_lowercase()
}

/// For each character of `s`, whether it is white space.
pub open spec fn space_flags(s: Seq<char>) -> Seq<bool> {
    Seq::new(s.len(), |i: int| is_space(s[i]))
}

/// Length of the run of set flags at the front of `flags`.
pub open spec fn leading(flags: Seq<bool>) -> nat
    decreases flags.len(),
{
    if flags.len() > 0 && flags.first() {
        1 + leading(flags.drop_first())
    } else {
        0
    }
}

/// Length of the run of set flags at the back of `flags`.
pub open spec fn trailing(flags: Seq<bool>) -> nat
    decreases flags.len(),
{
    if flags.len() > 0 && flags.last() {
        1 + trailing(flags.drop_last())
    } else {
        0
    }
}

/// Where the kept part starts once the set flags are stripped from both ends.
pub open spec fn kept_start(flags: Seq<bool>) -> nat {
    leading(flags)
}

/// Where the kept part ends once the set flags are stripped from both ends.
/// When every flag is set, nothing is kept and the end is the start.
pub open spec fn kept_end(flags: Seq<bool>) -> nat {
    if leading(flags) == flags.len() {
        flags.len()
    } else {
        (flags.len() - trailing(flags)) as nat
    }
}

/// `s` without the white space at its front and at its back.
pub open spec fn trimmed(s: Seq<char>) -> Seq<char> {
    s.subrange(kept_start(space_flags(s)) as int, kept_end(space_flags(s)) as int)
}

/// The leading run ends within the flags, at a flag that is not set.
pub proof fn lemma_leading(flags: Seq<bool>)
    ensures
        leading(flags) <= flags.len(),
        forall|i: int| 0 <= i < leading(flags) ==> flags[i],
        leading(flags) < flags.len() ==> !flags[leading(flags) as int],
    decreases flags.len(),
{
    if flags.len() > 0 && flags.first() {
        let rest = flags.drop_first();
        lemma_leading(rest);
        assert forall|i: int| 0 <= i < leading(flags) implies flags[i] by {
            if i > 0 {
                assert(flags[i] == rest[i - 1]);
            }
        }
        if leading(flags) < flags.len() {
            assert(flags[leading(flags) as int] == rest[leading(rest) as int]);
        }
    }
}

/// The trailing run starts within the flags, after a flag that is not set.
pub proof fn lemma_trailing(flags: Seq<bool>)
    ensures
        trailing(flags) <= flags.len(),
        forall|i: int| flags.len() - trailing(flags) <= i < flags.len() ==> flags[i],
        trailing(flags) < flags.len() ==> !flags[flags.len() - trailing(flags) - 1],
    decreases flags.len(),
{
    if flags.len() > 0 && flags.last() {
        let rest = flags.drop_last();
        lemma_trailing(rest);
        assert forall|i: int| flags.len() - trailing(flags) <= i < flags.len() implies flags[i] by {
            if i < flags.len() - 1 {
                assert(flags[i] == rest[i]);
            }
        }
        if trailing(flags) < flags.len() {
            assert(flags[flags.len() - trailing(flags) - 1] == rest[rest.len() - trailing(rest)
                - 1]);
        }
    }
}

/// The kept part is a range of the flags: its start is not after its end.
pub proof fn lemma_kept_range(flags: Seq<bool>)
    ensures
        kept_start(flags) <= kept_end(flags) <= flags.len(),
{
    lemma_leading(flags);
    lemma_trailing(flags);
}

/// A text of white space alone trims to nothing.
pub proof fn lemma_blank_trims_to_nothing(s: Seq<char>)
    requires
        forall|i: int| 0 <= i < s.len() ==> is_space(#[trigger] s[i]),
    ensures
        trimmed(s).len() == 0,
{
    let flags = space_flags(s);
    lemma_leading(flags);
    if leading(flags) < flags.len() {
        assert(is_space(s[leading(flags) as int]));
    }
}

/// The range of positions that is kept when the flagged positions are stripped
/// from both ends: `flags` says of each character of a text whether it is white
/// space, and the result is the start and the end of the trimmed text.
pub fn trim_range(flags: &Vec<bool>) -> (range: (usize, usize))
    ensures
        range.0 == kept_start(flags@),
        range.1 == kept_end(flags@),
{
    let len: usize = flags.len();
    let mut start: usize = 0;
    proof {
        assert(flags@.skip(0) =~= flags@);
    }
    while start < len && flags[start]
        invariant
            len == flags@.len(),
            start <= len,
            leading(flags@) == start + leading(flags@.skip(start as int)),
        decreases len - start,
    {
        proof {
            let rest = flags@.skip(start as int);
            assert(rest.first() == flags@[start as int]);
            assert(rest.drop_first() =~= flags@.skip(start + 1));
        }
        start += 1;
    }
    proof {
        let rest = flags@.skip(start as int);
        if start < len {
            assert(rest.first() == flags@[start as int]);
        }
    }
    if start == len {
        return (start, len);
    }
    let mut end: usize = len;
    proof {
        assert(flags@.take(len as int) =~= flags@);
    }
    while end > 0 && flags[end - 1]
        invariant
            len == flags@.len(),
            end <= len,
            trailing(flags@) == (len - end) + trailing(flags@.take(end as int)),
        decreases end,
    {
        proof {
            let rest = flags@.take(end as int);
            assert(rest.last() == flags@[end - 1]);
            assert(rest.drop_last() =~= flags@.take(end - 1));
        }
        end -= 1;
    }
    proof {
        let rest = flags@.take(end as int);
        if end > 0 {
            assert(rest.last() == flags@[end - 1]);
        }
    }
    (start, end)
}

/// The characters of `s`, one by one.
pub fn chars_of(s: &str) -> (chars: Vec<char>)
    ensures
        chars@ == s@,
{
    let mut chars: Vec<char> = Vec::new();
    for c in it: s.chars()
        invariant
            it.seq() == s@,
            chars@ == s@.take(it.index() as int),
    {
        chars.push(c);
    }
    chars
}

/// `s` without the white space at its front and at its back.
pub fn trim(s: &str) -> (r: &str)
    ensures
        r@ == trimmed(s@),
{
    let chars = chars_of(s);
    let mut flags: Vec<bool> = Vec::new();
    let mut i: usize = 0;
    while i < chars.len()
        invariant
            chars@ == s@,
            i <= chars@.len(),
            flags@ == space_flags(s@.take(i as int)),
        decreases chars@.len() - i,
    {
        let flag = char_is_space(chars[i]);
        flags.push(flag);
        proof {
            assert(flags@ =~= space_flags(s@.take(i + 1)));
        }
        i += 1;
    }
    proof {
        assert(s@.take(i as int) =~= s@);
        lemma_kept_range(flags@);
    }
    let (start, end) = trim_range(&flags);
    s.substring_char(start, end)
}

/// The lexicographic order of texts, character by character: a text comes
/// before every text that it starts, and otherwise the first character in which
/// two texts differ decides.
pub open spec fn lex_le(a: Seq<char>, b: Seq<char>) -> bool
    decreases a.len(),
{
    if a.len() == 0 {
        true
    } else if b.len() == 0 {
        false
    } else if a.first() == b.first() {
        lex_le(a.drop_first(), b.drop_first())
    } else {
        a.first() < b.first()
    }
}

/// Every text is in order with itself.
pub proof fn lemma_lex_le_reflexive(a: Seq<char>)
    ensures
        lex_le(a, a),
    decreases a.len(),
{
    if a.len() > 0 {
        lemma_lex_le_reflexive(a.drop_first());
    }
}

/// Of two texts, one is in order with the other.
pub proof fn lemma_lex_le_total(a: Seq<char>, b: Seq<char>)
    ensures
        lex_le(a, b) || lex_le(b, a),
    decreases a.len(),
{
    if a.len() > 0 && b.len() > 0 && a.first() == b.first() {
        lemma_lex_le_total(a.drop_first(), b.drop_first());
    }
}

/// Two texts that are in order both ways are the same text.
pub proof fn lemma_lex_le_antisymmetric(a: Seq<char>, b: Seq<char>)
    requires
        lex_le(a, b),
        lex_le(b, a),
    ensures
        a == b,
    decreases a.len(),
{
    if a.len() == 0 || b.len() == 0 {
        assert(a =~= b);
    } else {
        lemma_lex_le_antisymmetric(a.drop_first(), b.drop_first());
        assert(a =~= seq![a.first()] + a.drop_first());
        assert(b =~= seq![b.first()] + b.drop_first());
    }
}

/// The order passes through a text in the middle.
pub proof fn lemma_lex_le_transitive(a: Seq<char>, b: Seq<char>, c: Seq<char>)
    requires
        lex_le(a, b),
        lex_le(b, c),
    ensures
        lex_le(a, c),
    decreases a.len(),
{
    if a.len() > 0 && b.len() > 0 && c.len() > 0 {
        if a.first() == b.first() && b.first() == c.first() {
            lemma_lex_le_transitive(a.drop_first(), b.drop_first(), c.drop_first());
        }
    }
}

/// Whether `a` comes before `b`, or is `b`, in the lexicographic order.
pub fn text_le(a: &str, b: &str) -> (le: bool)
    ensures
        le == lex_le(a@, b@),
{
    let a_chars = chars_of(a);
    let b_chars = chars_of(b);
    let mut i: usize = 0;
    proof {
        assert(a@.skip(0) =~= a@);
        assert(b@.skip(0) =~= b@);
    }
    while i < a_chars.len() && i < b_chars.len()
        invariant
            a_chars@ == a@,
            b_chars@ == b@,
            i <= a@.len(),
            i <= b@.len(),
            lex_le(a@, b@) == lex_le(a@.skip(i as int), b@.skip(i as int)),
        decreases a@.len() - i,
    {
        proof {
            assert(a@.skip(i as int).first() == a@[i as int]);
            assert(b@.skip(i as int).first() == b@[i as int]);
            assert(a@.skip(i as int).drop_first() =~= a@.skip(i + 1));
            assert(b@.skip(i as int).drop_first() =~= b@.skip(i + 1));
        }
        if a_chars[i] != b_chars[i] {
            return a_chars[i] < b_chars[i];
        }
        i += 1;
    }
    i == a_chars.len()
}

} // verus!
