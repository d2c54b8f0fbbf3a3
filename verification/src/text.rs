//! String reasoning for migration file names and statement bodies: ASCII case
//! folding, lexicographic order on character sequences, splitting on a
//! separator character, and trimming a repeated suffix.

use vstd::prelude::*;
use vstd::string::StrSliceExecFns;

verus! {

/// The code point of `c` with an ASCII capital letter folded to lower case.
pub open spec fn lower_code(c: char) -> int {
    if ('A' as u32) <= (c as u32) && (c as u32) <= ('Z' as u32) {
        (c as u32) + 32
    } else {
        (c as u32) as int
    }
}

/// Character sequences that agree letter for letter up to ASCII case.
pub open spec fn ieq(a: Seq<char>, b: Seq<char>) -> bool {
    a.len() == b.len() && forall|i: int| 0 <= i < a.len() ==> lower_code(a[i]) == lower_code(b[i])
}

/// Whether `a` equals `b` up to ASCII case.
pub fn eq_ignore_case(a: &str, b: &str) -> (r: bool)
    ensures
        r == ieq(a@, b@),
{
    let alen = a.unicode_len();
    let blen = b.unicode_len();
    if alen != blen {
        return false;
    }
    let mut i: usize = 0;
    while i < alen
        invariant
            i <= alen,
            alen == a@.len(),
            alen == b@.len(),
            forall|j: int| 0 <= j < i ==> lower_code(a@[j]) == lower_code(b@[j]),
        decreases alen - i,
    {
        let ca = a.get_char(i) as u32;
        let cb = b.get_char(i) as u32;
        let la: u32 = if ('A' as u32) <= ca && ca <= ('Z' as u32) {
            ca + 32
        } else {
            ca
        };
        let lb: u32 = if ('A' as u32) <= cb && cb <= ('Z' as u32) {
            cb + 32
        } else {
            cb
        };
        if la != lb {
            return false;
        }
        i = i + 1;
    }
    true
}

/// Lexicographic order on character sequences, by code point; a proper
/// prefix comes before the longer sequence.  This is the order in which
/// zero-padded serial prefixes agree with numeric order.
pub open spec fn lex_le(a: Seq<char>, b: Seq<char>) -> bool
    decreases a.len(),
{
    if a.len() == 0 {
        true
    } else if b.len() == 0 {
        false
    } else if (a[0] as u32) < (b[0] as u32) {
        true
    } else if (a[0] as u32) > (b[0] as u32) {
        false
    } else {
        lex_le(a.drop_first(), b.drop_first())
    }
}

/// Any two character sequences are comparable under `lex_le`.
pub proof fn lemma_lex_le_total(a: Seq<char>, b: Seq<char>)
    ensures
        lex_le(a, b) || lex_le(b, a),
    decreases a.len(),
{
    if a.len() == 0 || b.len() == 0 {
    } else if (a[0] as u32) == (b[0] as u32) {
        lemma_lex_le_total(a.drop_first(), b.drop_first());
    }
}

/// `lex_le` is transitive.
pub proof fn lemma_lex_le_trans(a: Seq<char>, b: Seq<char>, c: Seq<char>)
    requires
        lex_le(a, b),
        lex_le(b, c),
    ensures
        lex_le(a, c),
    decreases a.len(),
{
    if a.len() == 0 {
    } else {
        if (a[0] as u32) == (b[0] as u32) && (b[0] as u32) == (c[0] as u32) {
            lemma_lex_le_trans(a.drop_first(), b.drop_first(), c.drop_first());
        }
    }
}

/// Whether `a@` comes no later than `b@` in lexicographic order.
pub fn lex_le_str(a: &str, b: &str) -> (r: bool)
    ensures
        r == lex_le(a@, b@),
{
    assert(a@.skip(0) =~= a@);
    assert(b@.skip(0) =~= b@);
    lex_le_from(a, b, 0)
}

/// Compares the tails of `a` and `b` that start at character `i`.
fn lex_le_from(a: &str, b: &str, i: usize) -> (r: bool)
    requires
        i <= a@.len(),
        i <= b@.len(),
    ensures
        r == lex_le(a@.skip(i as int), b@.skip(i as int)),
    decreases a@.len() - i,
{
    let alen = a.unicode_len();
    let blen = b.unicode_len();
    if i == alen {
        assert(a@.skip(i as int).len() == 0);
        true
    } else if i == blen {
        assert(b@.skip(i as int).len() == 0);
        assert(a@.skip(i as int).len() > 0);
        false
    } else {
        let ca = a.get_char(i) as u32;
        let cb = b.get_char(i) as u32;
        assert(a@.skip(i as int)[0] == a@[i as int]);
        assert(b@.skip(i as int)[0] == b@[i as int]);
        if ca < cb {
            true
        } else if ca > cb {
            false
        } else {
            let r = lex_le_from(a, b, i + 1);
            assert(a@.skip(i as int).drop_first() =~= a@.skip(i + 1));
            assert(b@.skip(i as int).drop_first() =~= b@.skip(i + 1));
            r
        }
    }
}

/// The fragments of `s` between occurrences of `sep`, in order; empty
/// fragments are kept, and a sequence without the separator is one fragment.
pub open spec fn split_chars(s: Seq<char>, sep: char) -> Seq<Seq<char>>
    decreases s.len(),
{
    if s.len() == 0 {
        seq![Seq::<char>::empty()]
    } else if s[0] == sep {
        seq![Seq::<char>::empty()] + split_chars(s.drop_first(), sep)
    } else {
        let rest = split_chars(s.drop_first(), sep);
        seq![seq![s[0]] + rest[0]] + rest.drop_first()
    }
}

/// A split always yields at least one fragment.
pub proof fn lemma_split_len(s: Seq<char>, sep: char)
    ensures
        split_chars(s, sep).len() >= 1,
    decreases s.len(),
{
    if s.len() == 0 {
    } else if s[0] == sep {
        lemma_split_len(s.drop_first(), sep);
    } else {
        lemma_split_len(s.drop_first(), sep);
    }
}

/// A sequence without the separator is its own single fragment.
pub proof fn lemma_split_no_sep(s: Seq<char>, sep: char)
    requires
        forall|j: int| 0 <= j < s.len() ==> s[j] != sep,
    ensures
        split_chars(s, sep) == seq![s],
    decreases s.len(),
{
    if s.len() == 0 {
        assert(s =~= Seq::<char>::empty());
        assert(split_chars(s, sep) =~= seq![s]);
    } else {
        assert(s[0] != sep);
        lemma_split_no_sep(s.drop_first(), sep);
        let rest = split_chars(s.drop_first(), sep);
        assert(rest == seq![s.drop_first()]);
        assert(seq![s[0]] + rest[0] =~= s);
        assert(rest.drop_first() =~= Seq::<Seq<char>>::empty());
        assert(split_chars(s, sep) =~= seq![s]);
    }
}

/// Splitting at the first separator occurrence, at position `k`, yields the
/// prefix before it and then the fragments of what follows it.
pub proof fn lemma_split_first_sep(s: Seq<char>, sep: char, k: int)
    requires
        0 <= k < s.len(),
        s[k] == sep,
        forall|j: int| 0 <= j < k ==> s[j] != sep,
    ensures
        split_chars(s, sep) == seq![s.take(k)] + split_chars(s.skip(k + 1), sep),
    decreases k,
{
    if k == 0 {
        assert(s.take(0) =~= Seq::<char>::empty());
        assert(s.skip(1) =~= s.drop_first());
        assert(split_chars(s, sep) =~= seq![s.take(0)] + split_chars(s.skip(1), sep));
    } else {
        assert(s[0] != sep);
        let t = s.drop_first();
        assert(t[k - 1] == sep);
        assert(forall|j: int| 0 <= j < k - 1 ==> t[j] != s[0] || true);
        assert forall|j: int| 0 <= j < k - 1 implies t[j] != sep by {
            assert(t[j] == s[j + 1]);
        }
        lemma_split_first_sep(t, sep, k - 1);
        let rest = split_chars(t, sep);
        assert(rest == seq![t.take(k - 1)] + split_chars(t.skip(k), sep));
        assert(rest[0] == t.take(k - 1));
        assert(seq![s[0]] + t.take(k - 1) =~= s.take(k));
        assert(rest.drop_first() =~= split_chars(t.skip(k), sep));
        assert(t.skip(k) =~= s.skip(k + 1));
        assert(split_chars(s, sep) =~= seq![s.take(k)] + split_chars(s.skip(k + 1), sep));
    }
}

/// The fragments of `s` between occurrences of `sep`, as owned strings.
pub fn split_str(s: &str, sep: char) -> (r: Vec<String>)
    ensures
        r.deep_view() == split_chars(s@, sep),
    decreases s@.len(),
{
    let len = s.unicode_len();
    let mut i: usize = 0;
    loop
        invariant
            i <= len,
            len == s@.len(),
            forall|j: int| 0 <= j < i ==> s@[j] != sep,
        decreases len - i,
    {
        if i == len {
            proof {
                lemma_split_no_sep(s@, sep);
            }
            let mut whole: Vec<String> = Vec::new();
            whole.push(s.to_owned());
            assert(whole.deep_view() =~= seq![s@]);
            return whole;
        }
        if s.get_char(i) == sep {
            let head = s.substring_char(0, i).to_owned();
            let tail = s.substring_char(i + 1, len);
            assert(tail@ =~= s@.skip(i + 1));
            let mut rest = split_str(tail, sep);
            proof {
                lemma_split_first_sep(s@, sep, i as int);
                lemma_split_len(tail@, sep);
            }
            rest.insert(0, head);
            assert(head@ =~= s@.take(i as int));
            assert(rest.deep_view() =~= seq![s@.take(i as int)] + split_chars(s@.skip(i + 1), sep));
            return rest;
        }
        i = i + 1;
    }
}

/// Whether `s` ends with `suf`.
pub open spec fn ends_with(s: Seq<char>, suf: Seq<char>) -> bool {
    s.len() >= suf.len() && s.subrange(s.len() - suf.len(), s.len() as int) == suf
}

/// `s` with every trailing repetition of `suf` removed.
pub open spec fn trim_end_matches_chars(s: Seq<char>, suf: Seq<char>) -> Seq<char>
    decreases s.len(),
{
    if suf.len() > 0 && ends_with(s, suf) {
        trim_end_matches_chars(s.take(s.len() - suf.len()), suf)
    } else {
        s
    }
}

/// `s` with every trailing repetition of `suf` removed.
pub fn trim_end_matches_str(s: &str, suf: &str) -> (r: String)
    requires
        suf@.len() > 0,
    ensures
        r@ == trim_end_matches_chars(s@, suf@),
    decreases s@.len(),
{
    let slen = s.unicode_len();
    let flen = suf.unicode_len();
    if slen >= flen {
        let tail = s.substring_char(slen - flen, slen);
        if tail.to_owned() == suf.to_owned() {
            assert(ends_with(s@, suf@));
            let head = s.substring_char(0, slen - flen);
            assert(head@ =~= s@.take(s@.len() - suf@.len()));
            return trim_end_matches_str(head, suf);
        }
        assert(!ends_with(s@, suf@));
    }
    s.to_owned()
}

} // verus!
