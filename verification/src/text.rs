//! Character-level string logic: lexicographic order, substring search, and
//! the stem/extension split of a filename.

use vstd::prelude::*;

verus! {

/// Lexicographic order on character sequences, by code point.
pub open spec fn lex_le(a: Seq<char>, b: Seq<char>) -> bool
    decreases a.len(),
{
    if a.len() == 0 {
        true
    } else if b.len() == 0 {
        false
    } else if (a[0] as u32) == (b[0] as u32) {
        lex_le(a.subrange(1, a.len() as int), b.subrange(1, b.len() as int))
    } else {
        (a[0] as u32) < (b[0] as u32)
    }
}

/// `lex_le` is reflexive.
pub proof fn lemma_lex_le_refl(a: Seq<char>)
    ensures
        lex_le(a, a),
    decreases a.len(),
{
    if a.len() > 0 {
        lemma_lex_le_refl(a.subrange(1, a.len() as int));
    }
}

/// `lex_le` is total: any two sequences are comparable.
pub proof fn lemma_lex_le_total(a: Seq<char>, b: Seq<char>)
    ensures
        lex_le(a, b) || lex_le(b, a),
    decreases a.len(),
{
    if a.len() > 0 && b.len() > 0 && (a[0] as u32) == (b[0] as u32) {
        lemma_lex_le_total(a.subrange(1, a.len() as int), b.subrange(1, b.len() as int));
    }
}

/// `lex_le` is transitive.
pub proof fn lemma_lex_le_trans(a: Seq<char>, b: Seq<char>, c: Seq<char>)
    requires
        lex_le(a, b),
        lex_le(b, c),
    ensures
        lex_le(a, c),
    decreases a.len(),
{
    if a.len() > 0 {
        if (a[0] as u32) == (b[0] as u32) && (b[0] as u32) == (c[0] as u32) {
            lemma_lex_le_trans(
                a.subrange(1, a.len() as int),
                b.subrange(1, b.len() as int),
                c.subrange(1, c.len() as int),
            );
        }
    }
}

/// Decides `lex_le` on two string slices.
pub fn str_lex_le(a: &str, b: &str) -> (r: bool)
    ensures
        r == lex_le(a@, b@),
{
    let alen = a.unicode_len();
    let blen = b.unicode_len();
    let mut i: usize = 0;
    proof {
        assert(a@.subrange(0, alen as int) =~= a@);
        assert(b@.subrange(0, blen as int) =~= b@);
    }
    loop
        invariant
            i <= alen,
            i <= blen,
            alen == a@.len(),
            blen == b@.len(),
            lex_le(a@, b@) == lex_le(
                a@.subrange(i as int, alen as int),
                b@.subrange(i as int, blen as int),
            ),
        decreases alen - i,
    {
        let ghost sa = a@.subrange(i as int, alen as int);
        let ghost sb = b@.subrange(i as int, blen as int);
        if i == alen {
            assert(sa.len() == 0);
            return true;
        }
        if i == blen {
            assert(sa.len() > 0 && sb.len() == 0);
            return false;
        }
        let ca = a.get_char(i);
        let cb = b.get_char(i);
        proof {
            assert(sa[0] == a@[i as int]);
            assert(sb[0] == b@[i as int]);
        }
        if (ca as u32) == (cb as u32) {
            proof {
                assert(sa.subrange(1, sa.len() as int) =~= a@.subrange(
                    i + 1 as int,
                    alen as int,
                ));
                assert(sb.subrange(1, sb.len() as int) =~= b@.subrange(
                    i + 1 as int,
                    blen as int,
                ));
            }
            i = i + 1;
        } else {
            return (ca as u32) < (cb as u32);
        }
    }
}

/// The needle `n` occurs in `h` starting at position `i`.
pub open spec fn occurs_at(h: Seq<char>, n: Seq<char>, i: int) -> bool {
    &&& 0 <= i
    &&& i + n.len() <= h.len()
    &&& h.subrange(i, i + n.len()) == n
}

/// The needle `n` occurs somewhere in `h`.
pub open spec fn has_substring(h: Seq<char>, n: Seq<char>) -> bool {
    exists|i: int| occurs_at(h, n, i)
}

/// Decides whether `n` occurs in `h` as a contiguous substring.
pub fn str_has_substring(h: &str, n: &str) -> (r: bool)
    ensures
        r == has_substring(h@, n@),
{
    let hlen = h.unicode_len();
    let nlen = n.unicode_len();
    if nlen > hlen {
        assert(forall|i: int| !occurs_at(h@, n@, i));
        return false;
    }
    if nlen == 0 {
        proof {
            assert(h@.subrange(0, 0) =~= n@);
            assert(occurs_at(h@, n@, 0));
        }
        return true;
    }
    let mut i: usize = 0;
    loop
        invariant
            1 <= nlen <= hlen,
            i <= hlen - nlen + 1,
            hlen == h@.len(),
            nlen == n@.len(),
            forall|k: int| 0 <= k < i ==> !occurs_at(h@, n@, k),
        decreases hlen - nlen + 1 - i,
    {
        if i > hlen - nlen {
            assert(forall|k: int| i <= k ==> !occurs_at(h@, n@, k));
            return false;
        }
        let mut j: usize = 0;
        let mut matched = true;
        while j < nlen
            invariant
                i + nlen <= hlen,
                hlen == h@.len(),
                nlen == n@.len(),
                j <= nlen,
                matched ==> forall|t: int| 0 <= t < j ==> h@[i + t] == n@[t],
                !matched ==> !occurs_at(h@, n@, i as int),
            decreases nlen - j,
        {
            let hc = h.get_char(i + j);
            let nc = n.get_char(j);
            if hc != nc {
                proof {
                    if occurs_at(h@, n@, i as int) {
                        assert(h@.subrange(i as int, i + nlen as int)[j as int] == n@[j as int]);
                    }
                }
                matched = false;
            }
            j = j + 1;
        }
        if matched {
            proof {
                assert(h@.subrange(i as int, i + nlen as int) =~= n@);
                assert(occurs_at(h@, n@, i as int));
            }
            return true;
        }
        i = i + 1;
    }
}

/// The position where a filename splits into stem and extension: the index of
/// the last `.` that is not the first character, or the whole length when the
/// name has no such dot (and so no extension).
pub open spec fn split_idx(s: Seq<char>) -> int
    decreases s.len(),
{
    if s.len() <= 1 {
        s.len() as int
    } else if s[s.len() - 1] == '.' {
        s.len() - 1
    } else {
        let r = split_idx(s.drop_last());
        if r == s.len() - 1 {
            s.len() as int
        } else {
            r
        }
    }
}

/// Basic bounds and meaning of `split_idx`.
pub proof fn lemma_split_idx(s: Seq<char>)
    ensures
        0 <= split_idx(s) <= s.len(),
        split_idx(s) < s.len() ==> 1 <= split_idx(s) && s[split_idx(s)] == '.',
        forall|j: int| split_idx(s) < j < s.len() ==> s[j] != '.',
    decreases s.len(),
{
    if s.len() > 1 && s[s.len() - 1] != '.' {
        lemma_split_idx(s.drop_last());
        assert(forall|j: int| 0 <= j < s.len() - 1 ==> s.drop_last()[j] == s[j]);
    }
}

/// `split_idx` is the dot position characterised by having no later dot.
pub proof fn lemma_split_idx_at(s: Seq<char>, k: int)
    requires
        1 <= k < s.len(),
        s[k] == '.',
        forall|j: int| k < j < s.len() ==> s[j] != '.',
    ensures
        split_idx(s) == k,
    decreases s.len(),
{
    if s[s.len() - 1] == '.' {
        assert(k == s.len() - 1);
    } else {
        assert(forall|j: int| 0 <= j < s.len() - 1 ==> s.drop_last()[j] == s[j]);
        lemma_split_idx_at(s.drop_last(), k);
    }
}

/// When no dot stands past the first character, there is no extension.
pub proof fn lemma_split_idx_none(s: Seq<char>)
    requires
        forall|j: int| 1 <= j < s.len() ==> s[j] != '.',
    ensures
        split_idx(s) == s.len(),
    decreases s.len(),
{
    if s.len() > 1 {
        assert(s[s.len() - 1] != '.');
        assert(forall|j: int| 0 <= j < s.len() - 1 ==> s.drop_last()[j] == s[j]);
        lemma_split_idx_none(s.drop_last());
    }
}

/// The stem of a filename: the part before the final extension, or the whole
/// name when there is none.
pub open spec fn stem_of(s: Seq<char>) -> Seq<char> {
    s.subrange(0, split_idx(s))
}

/// The extension of a filename, without its dot, when the name has one.
pub open spec fn ext_of(s: Seq<char>) -> Option<Seq<char>> {
    if split_idx(s) < s.len() {
        Some(s.subrange(split_idx(s) + 1, s.len() as int))
    } else {
        None
    }
}

/// The recognised subtitle extension.
pub open spec fn srt_ext() -> Seq<char> {
    seq!['s', 'r', 't']
}

/// The name carries the subtitle extension.
pub open spec fn is_srt_name(s: Seq<char>) -> bool {
    ext_of(s) == Some(srt_ext())
}

/// Computes `split_idx` of a filename.
pub fn find_split(name: &str) -> (k: usize)
    ensures
        k as int == split_idx(name@),
        k <= name@.len(),
{
    let len = name.unicode_len();
    let mut i: usize = len;
    while i > 1
        invariant
            i <= len,
            len == name@.len(),
            forall|j: int| i <= j < len ==> name@[j] != '.',
        decreases i,
    {
        let c = name.get_char(i - 1);
        if c == '.' {
            proof {
                lemma_split_idx_at(name@, i - 1);
            }
            return i - 1;
        }
        i = i - 1;
    }
    proof {
        lemma_split_idx_none(name@);
    }
    len
}

/// Computes the stem of a filename.
pub fn stem_of_name(name: &str) -> (r: String)
    ensures
        r@ == stem_of(name@),
{
    let k = find_split(name);
    let s = name.substring_char(0, k);
    String::from_str(s)
}

/// Decides whether a filename carries the subtitle extension.
pub fn is_srt_file_name(name: &str) -> (r: bool)
    ensures
        r == is_srt_name(name@),
{
    let len = name.unicode_len();
    let k = find_split(name);
    if k == len {
        return false;
    }
    if len - k != 4 {
        proof {
            let e = name@.subrange(split_idx(name@) + 1, len as int);
            assert(e.len() != 3);
        }
        return false;
    }
    let c0 = name.get_char(k + 1);
    let c1 = name.get_char(k + 2);
    let c2 = name.get_char(k + 3);
    let r = c0 == 's' && c1 == 'r' && c2 == 't';
    proof {
        let e = name@.subrange(split_idx(name@) + 1, len as int);
        assert(e.len() == 3);
        assert(e[0] == name@[k + 1]);
        assert(e[1] == name@[k + 2]);
        assert(e[2] == name@[k + 3]);
        assert(srt_ext()[0] == 's' && srt_ext()[1] == 'r' && srt_ext()[2] == 't');
        if r {
            assert(e =~= srt_ext());
        } else {
            assert(e != srt_ext());
        }
    }
    r
}

/// What `str::to_lowercase` returns for a given sequence of characters.
pub uninterp spec fn lower_of(s: Seq<char>) -> Seq<char>;

/// Relies on `str::to_lowercase`: the result depends on the characters of the
/// input alone.
#[verifier::external_body]
pub(crate) fn lowercase(s: &str) -> (r: String)
    ensures
        r@ == lower_of(s@),
{
    s.to_lowercase()
}

/// Lowercases a keyword, treating the empty text as no keyword at all.
pub fn normalize_keyword(text: &str) -> (r: Option<String>)
    ensures
        (r is None) <==> text@.len() == 0,
        r matches Some(s) ==> s@ == lower_of(text@),
{
    if text.unicode_len() == 0 {
        None
    } else {
        Some(lowercase(text))
    }
}

} // verus!
