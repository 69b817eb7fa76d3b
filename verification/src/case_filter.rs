//! Selecting snapshot cases by name with `*` wildcard patterns.
//!
//! Patterns and names are UTF-8 text handled as bytes: `*` is a single byte that never occurs
//! inside a multi-byte sequence, so byte-wise matching agrees with matching by characters.
//! A list of patterns is split apart at commas and white space.

use vstd::prelude::*;

verus! {

/// The wildcard byte `*`.
pub const STAR: u8 = 42u8;

/// `n` matches the pattern `p`, where each `*` stands for any run of bytes, possibly empty, and
/// every other byte stands for itself.
pub open spec fn glob_matches(p: Seq<u8>, n: Seq<u8>) -> bool
    decreases p.len(), n.len(),
{
    if p.len() == 0 {
        n.len() == 0
    } else if p[0] == STAR {
        glob_matches(p.drop_first(), n) || (n.len() > 0 && glob_matches(p, n.drop_first()))
    } else {
        n.len() > 0 && n[0] == p[0] && glob_matches(p.drop_first(), n.drop_first())
    }
}

/// `s` holds no wildcard.
pub open spec fn no_star(s: Seq<u8>) -> bool {
    forall|i: int| 0 <= i < s.len() ==> s[i] != STAR
}

/// `s` occurs in `h` starting at position `k`.
pub open spec fn occurs_at(h: Seq<u8>, k: int, s: Seq<u8>) -> bool {
    0 <= k && k + s.len() <= h.len() && h.subrange(k, k + s.len()) == s
}

/// The suffix of `n` from position `k`.
pub open spec fn suffix(n: Seq<u8>, k: int) -> Seq<u8> {
    n.subrange(k, n.len() as int)
}

/// A leading literal run: `s ++ r` matches `n` exactly when `n` starts with `s` and the rest of
/// `n` matches `r`.
proof fn lemma_literal_prefix(s: Seq<u8>, r: Seq<u8>, n: Seq<u8>)
    requires
        no_star(s),
    ensures
        glob_matches(s + r, n) <==> (occurs_at(n, 0, s) && glob_matches(r, suffix(n, s.len() as int))),
    decreases s.len(),
{
    if s.len() == 0 {
        assert(s + r =~= r);
        assert(suffix(n, 0) =~= n);
        assert(n.subrange(0, 0) =~= s);
    } else {
        let p = s + r;
        assert(p[0] == s[0]);
        assert(p.drop_first() =~= s.drop_first() + r);
        assert(no_star(s.drop_first())) by {
            assert forall|i: int| 0 <= i < s.drop_first().len() implies s.drop_first()[i] != STAR by {
                assert(s.drop_first()[i] == s[i + 1]);
            }
        }
        if n.len() > 0 {
            let s1 = s.drop_first();
            let n1 = n.drop_first();
            lemma_literal_prefix(s1, r, n1);
            if s.len() <= n.len() {
                assert(suffix(n1, s1.len() as int) =~= suffix(n, s.len() as int));
                if occurs_at(n, 0, s) {
                    assert(n[0] == n.subrange(0, s.len() as int)[0]);
                    assert(n1.subrange(0, s1.len() as int) =~= n.subrange(0, s.len() as int).drop_first());
                }
                if n[0] == s[0] && occurs_at(n1, 0, s1) {
                    let t = n.subrange(0, s.len() as int);
                    assert forall|i: int| 0 <= i < s.len() implies t[i] == s[i] by {
                        if i > 0 {
                            assert(t[i] == n1.subrange(0, s1.len() as int)[i - 1]);
                            assert(s[i] == s1[i - 1]);
                        }
                    }
                    assert(t =~= s);
                }
            }
        }
    }
}

/// A pattern without wildcards matches exactly itself.
proof fn lemma_no_star_equal(s: Seq<u8>, n: Seq<u8>)
    requires
        no_star(s),
    ensures
        glob_matches(s, n) <==> s == n,
{
    let e = Seq::<u8>::empty();
    lemma_literal_prefix(s, e, n);
    assert(s + e =~= s);
    if s == n {
        assert(n.subrange(0, s.len() as int) =~= s);
        assert(suffix(n, s.len() as int) =~= e);
    }
    if occurs_at(n, 0, s) && glob_matches(e, suffix(n, s.len() as int)) {
        assert(n =~= s);
    }
}

/// A leading wildcard absorbs any prefix: `* r` matches `n` whenever `r` matches a suffix of `n`.
proof fn lemma_star_intro(r: Seq<u8>, n: Seq<u8>, k: int)
    requires
        0 <= k <= n.len(),
        glob_matches(r, suffix(n, k)),
    ensures
        glob_matches(seq![STAR] + r, n),
    decreases k,
{
    let p = seq![STAR] + r;
    assert(p.drop_first() =~= r);
    if k == 0 {
        assert(suffix(n, 0) =~= n);
    } else {
        assert(suffix(n.drop_first(), k - 1) =~= suffix(n, k));
        lemma_star_intro(r, n.drop_first(), k - 1);
    }
}

/// A leading wildcard matches only by letting `r` match some suffix of `n`.
proof fn lemma_star_elim(r: Seq<u8>, n: Seq<u8>) -> (k: int)
    requires
        glob_matches(seq![STAR] + r, n),
    ensures
        0 <= k <= n.len(),
        glob_matches(r, suffix(n, k)),
    decreases n.len(),
{
    let p = seq![STAR] + r;
    assert(p.drop_first() =~= r);
    if glob_matches(r, n) {
        assert(suffix(n, 0) =~= n);
        0
    } else {
        let j = lemma_star_elim(r, n.drop_first());
        assert(suffix(n.drop_first(), j) =~= suffix(n, j + 1));
        j + 1
    }
}

/// `* r` keeps matching when bytes are put in front of the text.
proof fn lemma_star_suffix(r: Seq<u8>, n: Seq<u8>, k: int)
    requires
        0 <= k <= n.len(),
        glob_matches(seq![STAR] + r, suffix(n, k)),
    ensures
        glob_matches(seq![STAR] + r, n),
{
    let j = lemma_star_elim(r, suffix(n, k));
    assert(suffix(suffix(n, k), j) =~= suffix(n, k + j));
    lemma_star_intro(r, n, k + j);
}

/// Two wildcards in a row match what one does.
proof fn lemma_double_star(r: Seq<u8>, n: Seq<u8>)
    ensures
        glob_matches(seq![STAR, STAR] + r, n) <==> glob_matches(seq![STAR] + r, n),
{
    let sr = seq![STAR] + r;
    assert(seq![STAR, STAR] + r =~= seq![STAR] + sr);
    if glob_matches(seq![STAR] + sr, n) {
        let k = lemma_star_elim(sr, n);
        lemma_star_suffix(r, n, k);
    }
    if glob_matches(sr, n) {
        assert(suffix(n, 0) =~= n);
        lemma_star_intro(sr, n, 0);
    }
}

/// A lone wildcard matches everything.
proof fn lemma_star_alone(n: Seq<u8>)
    ensures
        glob_matches(seq![STAR], n),
{
    let e = Seq::<u8>::empty();
    assert(seq![STAR] + e =~= seq![STAR]);
    assert(suffix(n, n.len() as int) =~= e);
    lemma_star_intro(e, n, n.len() as int);
}

/// A wildcard followed by a final literal run matches exactly the texts that end with that run.
proof fn lemma_star_last(s: Seq<u8>, n: Seq<u8>)
    requires
        no_star(s),
    ensures
        glob_matches(seq![STAR] + s, n) <==> (s.len() <= n.len() && suffix(n, n.len() - s.len()) == s),
{
    if glob_matches(seq![STAR] + s, n) {
        let k = lemma_star_elim(s, n);
        lemma_no_star_equal(s, suffix(n, k));
    }
    if s.len() <= n.len() && suffix(n, n.len() - s.len()) == s {
        lemma_no_star_equal(s, s);
        lemma_star_intro(s, n, n.len() - s.len());
    }
}

/// Greedy matching of a middle literal run: `* s * r` matches `n` exactly when `s` occurs in `n`
/// and `* r` matches what follows the leftmost occurrence.
proof fn lemma_star_segment(s: Seq<u8>, r: Seq<u8>, n: Seq<u8>, i: int)
    requires
        no_star(s),
        occurs_at(n, i, s),
        forall|j: int| 0 <= j < i ==> !occurs_at(n, j, s),
    ensures
        glob_matches(seq![STAR] + s + seq![STAR] + r, n) <==> glob_matches(
            seq![STAR] + r,
            suffix(n, i + s.len()),
        ),
{
    let sr = s + (seq![STAR] + r);
    assert(seq![STAR] + s + seq![STAR] + r =~= seq![STAR] + sr);
    if glob_matches(seq![STAR] + sr, n) {
        let k = lemma_star_elim(sr, n);
        lemma_literal_prefix(s, seq![STAR] + r, suffix(n, k));
        assert(suffix(n, k).subrange(0, s.len() as int) =~= n.subrange(k, k + s.len()));
        assert(occurs_at(n, k, s));
        assert(suffix(suffix(n, k), s.len() as int) =~= suffix(n, k + s.len()));
        assert(suffix(suffix(n, i + s.len()), k - i) =~= suffix(n, k + s.len()));
        lemma_star_suffix(r, suffix(n, i + s.len()), k - i);
    }
    if glob_matches(seq![STAR] + r, suffix(n, i + s.len())) {
        lemma_literal_prefix(s, seq![STAR] + r, suffix(n, i));
        assert(suffix(n, i).subrange(0, s.len() as int) =~= n.subrange(i, i + s.len()));
        assert(suffix(suffix(n, i), s.len() as int) =~= suffix(n, i + s.len()));
        lemma_star_intro(sr, n, i);
    }
}


/// Moving a window into a suffix: an occurrence at `j` in the suffix from `rem` is an occurrence
/// at `rem + j` in the whole text.
proof fn lemma_occurs_in_suffix(n: Seq<u8>, rem: int, j: int, s: Seq<u8>)
    requires
        0 <= rem <= n.len(),
        0 <= j,
    ensures
        occurs_at(suffix(n, rem), j, s) <==> occurs_at(n, rem + j, s),
{
    if j + s.len() <= n.len() - rem {
        assert(suffix(n, rem).subrange(j, j + s.len()) =~= n.subrange(rem + j, rem + j + s.len()));
    }
}

/// Position of the first `b` in `s` at or after `from`, or `s.len()` when there is none.
fn find_byte_from(s: &[u8], b: u8, from: usize) -> (r: usize)
    requires
        from <= s.len(),
    ensures
        from <= r <= s.len(),
        r < s.len() ==> s@[r as int] == b,
        forall|j: int| from <= j < r ==> s@[j] != b,
{
    let mut i = from;
    while i < s.len()
        invariant
            from <= i <= s.len(),
            forall|j: int| from <= j < i ==> s@[j] != b,
        decreases s.len() - i,
    {
        if s[i] == b {
            return i;
        }
        i = i + 1;
    }
    i
}

/// Whether `p[ps..pe]` occurs in `h` at position `k`.
fn occurs_at_exec(h: &[u8], k: usize, p: &[u8], ps: usize, pe: usize) -> (r: bool)
    requires
        ps <= pe <= p.len(),
    ensures
        r == occurs_at(h@, k as int, p@.subrange(ps as int, pe as int)),
{
    let ghost seg = p@.subrange(ps as int, pe as int);
    let len = pe - ps;
    if k > h.len() || len > h.len() - k {
        return false;
    }
    let mut i: usize = 0;
    while i < len
        invariant
            ps <= pe <= p.len(),
            len == pe - ps,
            k + len <= h.len(),
            seg == p@.subrange(ps as int, pe as int),
            i <= len,
            forall|j: int| 0 <= j < i ==> h@[k + j] == seg[j],
        decreases len - i,
    {
        if h[k + i] != p[ps + i] {
            assert(h@.subrange(k as int, k + len)[i as int] != seg[i as int]);
            return false;
        }
        i = i + 1;
    }
    assert(h@.subrange(k as int, k + len) =~= seg);
    true
}

/// Leftmost occurrence of `p[ps..pe]` in `h` at or after `from`.
fn find_segment(h: &[u8], from: usize, p: &[u8], ps: usize, pe: usize) -> (r: Option<usize>)
    requires
        from <= h.len(),
        ps <= pe <= p.len(),
    ensures
        match r {
            Some(k) => from <= k && occurs_at(h@, k as int, p@.subrange(ps as int, pe as int))
                && forall|j: int| from <= j < k ==> !occurs_at(h@, j, p@.subrange(ps as int, pe as int)),
            None => forall|j: int| from <= j ==> !occurs_at(h@, j, p@.subrange(ps as int, pe as int)),
        },
{
    let len = pe - ps;
    if len > h.len() - from {
        return None;
    }
    let last = h.len() - len;
    let mut k = from;
    loop
        invariant
            from <= k <= last,
            last == h.len() - len,
            len == pe - ps,
            ps <= pe <= p.len(),
            forall|j: int| from <= j < k ==> !occurs_at(h@, j, p@.subrange(ps as int, pe as int)),
        decreases last - k,
    {
        if occurs_at_exec(h, k, p, ps, pe) {
            return Some(k);
        }
        if k == last {
            return None;
        }
        k = k + 1;
    }
}

/// Whether the snapshot case called `name` is selected by `pattern`: without a `*` the two must
/// be equal; otherwise each `*` stands for any run of bytes, the text before the first `*` must
/// start the name, the text after the last `*` must end it, and the runs between occur in order.
pub fn matches_case_pattern(pattern: &[u8], name: &[u8]) -> (r: bool)
    ensures
        r == glob_matches(pattern@, name@),
{
    let ghost pat = pattern@;
    let ghost nm = name@;
    let plen = pattern.len();
    let s0 = find_byte_from(pattern, STAR, 0);
    if s0 == plen {
        proof {
            assert(no_star(pat));
            lemma_no_star_equal(pat, nm);
            assert(pat.subrange(0, plen as int) =~= pat);
        }
        if plen != name.len() {
            return false;
        }
        let same = occurs_at_exec(name, 0, pattern, 0, plen);
        proof {
            if same {
                assert(nm.subrange(0, plen as int) =~= nm);
            }
        }
        return same;
    }
    proof {
        let first = pat.subrange(0, s0 as int);
        assert(no_star(first));
        assert(first + pat.subrange(s0 as int, plen as int) =~= pat);
        lemma_literal_prefix(first, pat.subrange(s0 as int, plen as int), nm);
    }
    if !occurs_at_exec(name, 0, pattern, 0, s0) {
        return false;
    }
    let mut rem: usize = s0;
    let mut seg_start: usize = s0 + 1;
    loop
        invariant
            pat == pattern@,
            nm == name@,
            plen == pattern.len(),
            1 <= seg_start <= plen,
            pat[seg_start - 1] == STAR,
            rem <= name.len(),
            glob_matches(pat, nm) == glob_matches(
                pat.subrange(seg_start - 1, plen as int),
                suffix(nm, rem as int),
            ),
        decreases plen - seg_start,
    {
        let seg_end = find_byte_from(pattern, STAR, seg_start);
        let ghost seg = pat.subrange(seg_start as int, seg_end as int);
        let ghost text = suffix(nm, rem as int);
        proof {
            assert(no_star(seg));
        }
        if seg_end == seg_start {
            if seg_end == plen {
                proof {
                    assert(pat.subrange(seg_start - 1, plen as int) =~= seq![STAR]);
                    lemma_star_alone(text);
                }
                return true;
            }
            proof {
                let rest = pat.subrange(seg_end + 1, plen as int);
                assert(pat.subrange(seg_start - 1, plen as int) =~= seq![STAR, STAR] + rest);
                assert(pat.subrange(seg_end as int, plen as int) =~= seq![STAR] + rest);
                lemma_double_star(rest, text);
            }
            seg_start = seg_end + 1;
        } else if seg_end == plen {
            let slen = seg_end - seg_start;
            proof {
                assert(pat.subrange(seg_start - 1, plen as int) =~= seq![STAR] + seg);
                lemma_star_last(seg, text);
            }
            if slen > name.len() - rem {
                return false;
            }
            let at = name.len() - slen;
            let found = occurs_at_exec(name, at, pattern, seg_start, seg_end);
            proof {
                assert(suffix(text, text.len() - seg.len()) =~= nm.subrange(at as int, at + slen));
            }
            return found;
        } else {
            let ghost rest = pat.subrange(seg_end + 1, plen as int);
            proof {
                assert(pat.subrange(seg_start - 1, plen as int) =~= seq![STAR] + seg + seq![STAR]
                    + rest);
                assert(pat.subrange(seg_end as int, plen as int) =~= seq![STAR] + rest);
            }
            match find_segment(name, rem, pattern, seg_start, seg_end) {
                None => {
                    proof {
                        if glob_matches(seq![STAR] + seg + seq![STAR] + rest, text) {
                            let sr = seg + (seq![STAR] + rest);
                            assert(seq![STAR] + seg + seq![STAR] + rest =~= seq![STAR] + sr);
                            let k = lemma_star_elim(sr, text);
                            lemma_literal_prefix(seg, seq![STAR] + rest, suffix(text, k));
                            assert(suffix(text, k).subrange(0, seg.len() as int) =~= nm.subrange(
                                rem + k,
                                rem + k + seg.len(),
                            ));
                            assert(occurs_at(nm, rem + k, seg));
                        }
                    }
                    return false;
                },
                Some(k) => {
                    proof {
                        let i = k - rem;
                        lemma_occurs_in_suffix(nm, rem as int, i, seg);
                        assert forall|j: int| 0 <= j < i implies !occurs_at(text, j, seg) by {
                            lemma_occurs_in_suffix(nm, rem as int, j, seg);
                        }
                        lemma_star_segment(seg, rest, text, i);
                        assert(suffix(text, i + seg.len()) =~= suffix(nm, k + seg.len()));
                    }
                    rem = k + (seg_end - seg_start);
                    seg_start = seg_end + 1;
                },
            }
        }
    }
}


/// Whether `c` has the Unicode `White_Space` property: tab through carriage return, space, next
/// line, no-break space, ogham space mark, the spaces from en quad to hair space, the line and
/// paragraph separators, narrow no-break space, medium mathematical space and ideographic space.
pub open spec fn is_whitespace_char(c: char) -> bool {
    let u = c as u32;
    ||| 0x09 <= u <= 0x0D
    ||| u == 0x20
    ||| u == 0x85
    ||| u == 0xA0
    ||| u == 0x1680
    ||| 0x2000 <= u <= 0x200A
    ||| u == 0x2028
    ||| u == 0x2029
    ||| u == 0x202F
    ||| u == 0x205F
    ||| u == 0x3000
}

/// Whether `c` has the Unicode `White_Space` property.
fn char_is_whitespace(c: char) -> (r: bool)
    ensures
        r == is_whitespace_char(c),
{
    let u = c as u32;
    (0x09 <= u && u <= 0x0D) || u == 0x20 || u == 0x85 || u == 0xA0 || u == 0x1680 || (0x2000 <= u
        && u <= 0x200A) || u == 0x2028 || u == 0x2029 || u == 0x202F || u == 0x205F || u == 0x3000
}

/// Characters that separate patterns in a list: commas and white space.
pub open spec fn is_pattern_separator(c: char) -> bool {
    c == ',' || is_whitespace_char(c)
}

/// The patterns of a list: the runs of characters between separators, in order, without empty
/// ones.
pub open spec fn split_patterns_spec(s: Seq<char>) -> Seq<Seq<char>>
    decreases s.len(),
{
    if s.len() == 0 {
        Seq::empty()
    } else {
        let rest = split_patterns_spec(s.drop_last());
        let c = s.last();
        if is_pattern_separator(c) {
            rest
        } else if s.len() >= 2 && !is_pattern_separator(s[s.len() - 2]) {
            rest.update(rest.len() - 1, rest.last().push(c))
        } else {
            rest.push(seq![c])
        }
    }
}

/// The characters of each piece, in order.
pub open spec fn pieces_view(pieces: Seq<Vec<char>>) -> Seq<Seq<char>> {
    pieces.map_values(|p: Vec<char>| p@)
}

/// Split a list of case patterns at commas and white space, dropping empty pieces.
pub fn split_case_patterns(value: &[char]) -> (r: Vec<Vec<char>>)
    ensures
        pieces_view(r@) == split_patterns_spec(value@),
{
    let n = value.len();
    let mut out: Vec<Vec<char>> = Vec::new();
    let mut cur: Vec<char> = Vec::new();
    let mut i: usize = 0;
    proof {
        assert(value@.take(0) =~= Seq::<char>::empty());
        assert(pieces_view(out@) =~= Seq::<Seq<char>>::empty());
    }
    while i < n
        invariant
            n == value@.len(),
            i <= n,
            cur@.len() == 0 ==> pieces_view(out@) == split_patterns_spec(value@.take(i as int))
                && (i == 0 || is_pattern_separator(value@[i - 1])),
            cur@.len() > 0 ==> split_patterns_spec(value@.take(i as int)) == pieces_view(out@).push(
                cur@,
            ) && i > 0 && !is_pattern_separator(value@[i - 1]),
        decreases n - i,
    {
        let c = value[i];
        let ghost t = value@.take(i + 1);
        proof {
            assert(t.drop_last() =~= value@.take(i as int));
            assert(t.last() == c);
            if i >= 1 {
                assert(t[t.len() - 2] == value@[i - 1]);
            }
        }
        let sep = c == ',' || char_is_whitespace(c);
        if sep {
            if cur.len() > 0 {
                let ghost before = pieces_view(out@);
                let piece = cur;
                out.push(piece);
                cur = Vec::new();
                proof {
                    assert(pieces_view(out@) =~= before.push(piece@));
                }
            }
        } else {
            let ghost before = pieces_view(out@);
            let ghost was = cur@;
            if cur.len() == 0 {
                proof {
                    assert(split_patterns_spec(t) == before.push(seq![c]));
                    assert(was.push(c) =~= seq![c]);
                }
            } else {
                proof {
                    let p = before.push(was);
                    assert(split_patterns_spec(t) == p.update(p.len() - 1, p.last().push(c)));
                    assert(p.update(p.len() - 1, p.last().push(c)) =~= before.push(was.push(c)));
                }
            }
            cur.push(c);
            proof {
                assert(cur@ =~= was.push(c));
            }
        }
        i = i + 1;
    }
    proof {
        assert(value@.take(n as int) =~= value@);
    }
    if cur.len() > 0 {
        let ghost before = pieces_view(out@);
        let piece = cur;
        out.push(piece);
        proof {
            assert(pieces_view(out@) =~= before.push(piece@));
        }
    }
    out
}

} // verus!
