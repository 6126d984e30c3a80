//! Byte-string utilities shared by the codec, the catalog and the mount
//! guard: searching, comparison, and the lexicographic order used to break
//! ties between snapshot names.

use vstd::prelude::*;

verus! {

/// ASCII codes the snapshot text formats are built from.
pub const TAB: u8 = 9;
pub const LINE_FEED: u8 = 10;
pub const CARRIAGE_RETURN: u8 = 13;
pub const SPACE: u8 = 32;
pub const DASH: u8 = 45;
pub const DOT: u8 = 46;
pub const SLASH: u8 = 47;
pub const DIGIT_ZERO: u8 = 48;
pub const DIGIT_NINE: u8 = 57;
pub const AT_SIGN: u8 = 64;
pub const UNDERSCORE: u8 = 95;

/// No occurrence of byte `b` anywhere in `s`.
pub open spec fn byte_free(s: Seq<u8>, b: u8) -> bool {
    forall|i: int| 0 <= i < s.len() ==> s[i] != b
}

/// Index of the first occurrence of `b` in `s` at or after `i`,
/// or `s.len()` when there is none.
pub open spec fn find_from(s: Seq<u8>, i: int, b: u8) -> int
    decreases s.len() - i,
{
    if i < 0 || i >= s.len() {
        s.len() as int
    } else if s[i] == b {
        i
    } else {
        find_from(s, i + 1, b)
    }
}

pub proof fn lemma_find_from(s: Seq<u8>, i: int, b: u8)
    requires
        0 <= i <= s.len(),
    ensures
        i <= find_from(s, i, b) <= s.len(),
        find_from(s, i, b) < s.len() ==> s[find_from(s, i, b)] == b,
        forall|j: int| i <= j < find_from(s, i, b) ==> s[j] != b,
    decreases s.len() - i,
{
    if i < s.len() && s[i] != b {
        lemma_find_from(s, i + 1, b);
    }
}

/// `find_from` returns exactly the position `p` whenever the bytes before
/// `p` are free of `b` and `p` itself carries `b` or is the end.
pub proof fn lemma_find_from_is(s: Seq<u8>, i: int, p: int, b: u8)
    requires
        0 <= i <= p <= s.len(),
        forall|j: int| i <= j < p ==> s[j] != b,
        p == s.len() || s[p] == b,
    ensures
        find_from(s, i, b) == p,
    decreases p - i,
{
    if i < p {
        lemma_find_from_is(s, i + 1, p, b);
    }
}

/// First occurrence of `b` in `s` at or after `from`, or `s.len()`.
pub fn find_byte(s: &Vec<u8>, from: usize, b: u8) -> (r: usize)
    requires
        from <= s.len(),
    ensures
        r as int == find_from(s@, from as int, b),
        from <= r <= s.len(),
{
    let n: usize = s.len();
    let mut i: usize = from;
    while i < n
        invariant
            from <= i <= n,
            n == s@.len(),
            forall|j: int| from <= j < i ==> s@[j] != b,
        decreases n - i,
    {
        if s[i] == b {
            proof {
                lemma_find_from_is(s@, from as int, i as int, b);
            }
            return i;
        }
        i = i + 1;
    }
    proof {
        lemma_find_from_is(s@, from as int, n as int, b);
    }
    n
}

/// Byte-wise equality of two byte strings.
pub fn bytes_eq(a: &Vec<u8>, b: &Vec<u8>) -> (r: bool)
    ensures
        r == (a@ == b@),
{
    if a.len() != b.len() {
        return false;
    }
    let mut i: usize = 0;
    while i < a.len()
        invariant
            i <= a.len(),
            a.len() == b.len(),
            forall|j: int| 0 <= j < i ==> a@[j] == b@[j],
        decreases a.len() - i,
    {
        if a[i] != b[i] {
            return false;
        }
        i = i + 1;
    }
    proof {
        assert(a@ =~= b@);
    }
    true
}

/// Whether `prefix` is an initial segment of `s`.
pub fn starts_with(s: &Vec<u8>, prefix: &Vec<u8>) -> (r: bool)
    ensures
        r == prefix@.is_prefix_of(s@),
{
    if prefix.len() > s.len() {
        return false;
    }
    let mut i: usize = 0;
    while i < prefix.len()
        invariant
            i <= prefix.len(),
            prefix.len() <= s.len(),
            forall|j: int| 0 <= j < i ==> s@[j] == prefix@[j],
        decreases prefix.len() - i,
    {
        if s[i] != prefix[i] {
            proof {
                assert(s@.subrange(0, prefix@.len() as int)[i as int] != prefix@[i as int]);
            }
            return false;
        }
        i = i + 1;
    }
    proof {
        assert(prefix@ =~= s@.subrange(0, prefix@.len() as int));
    }
    true
}

/// Strict lexicographic order on byte strings: a proper prefix comes first,
/// otherwise the first differing byte decides.
pub open spec fn bytes_lt(a: Seq<u8>, b: Seq<u8>) -> bool
    decreases a.len(),
{
    if b.len() == 0 {
        false
    } else if a.len() == 0 {
        true
    } else if a[0] != b[0] {
        a[0] < b[0]
    } else {
        bytes_lt(a.drop_first(), b.drop_first())
    }
}

pub proof fn lemma_bytes_lt_irreflexive(a: Seq<u8>)
    ensures
        !bytes_lt(a, a),
    decreases a.len(),
{
    if a.len() > 0 {
        lemma_bytes_lt_irreflexive(a.drop_first());
    }
}

/// Any two distinct byte strings are ordered one way or the other.
pub proof fn lemma_bytes_lt_connected(a: Seq<u8>, b: Seq<u8>)
    requires
        a != b,
    ensures
        bytes_lt(a, b) || bytes_lt(b, a),
    decreases a.len(),
{
    if a.len() == 0 && b.len() == 0 {
        assert(a =~= b);
    } else if a.len() > 0 && b.len() > 0 && a[0] == b[0] {
        if a.drop_first() == b.drop_first() {
            assert(a.len() == b.len()) by {
                assert(a.drop_first().len() == b.drop_first().len());
            }
            assert forall|k: int| 0 <= k < a.len() implies a[k] == b[k] by {
                if k > 0 {
                    assert(a.subrange(1, a.len() as int)[k - 1] == a[k]);
                    assert(b.subrange(1, b.len() as int)[k - 1] == b[k]);
                    assert(a.subrange(1, a.len() as int) == b.subrange(1, b.len() as int));
                }
            }
            assert(a =~= b);
        } else {
            lemma_bytes_lt_connected(a.drop_first(), b.drop_first());
        }
    }
}

pub proof fn lemma_bytes_lt_transitive(a: Seq<u8>, b: Seq<u8>, c: Seq<u8>)
    requires
        bytes_lt(a, b),
        bytes_lt(b, c),
    ensures
        bytes_lt(a, c),
    decreases a.len(),
{
    if a.len() > 0 && b.len() > 0 && c.len() > 0 && a[0] == b[0] && b[0] == c[0] {
        lemma_bytes_lt_transitive(a.drop_first(), b.drop_first(), c.drop_first());
    }
}

/// When the first `i` bytes agree, the order is decided by the remainders.
pub proof fn lemma_bytes_lt_common_prefix(a: Seq<u8>, b: Seq<u8>, i: int)
    requires
        0 <= i <= a.len(),
        i <= b.len(),
        forall|j: int| 0 <= j < i ==> a[j] == b[j],
    ensures
        bytes_lt(a, b) == bytes_lt(a.skip(i), b.skip(i)),
    decreases i,
{
    if i == 0 {
        assert(a.skip(0) =~= a);
        assert(b.skip(0) =~= b);
    } else {
        assert(a.drop_first().skip(i - 1) =~= a.skip(i));
        assert(b.drop_first().skip(i - 1) =~= b.skip(i));
        lemma_bytes_lt_common_prefix(a.drop_first(), b.drop_first(), i - 1);
    }
}

/// Copy of `s[from..to]`.
pub fn subvec(s: &Vec<u8>, from: usize, to: usize) -> (r: Vec<u8>)
    requires
        from <= to <= s.len(),
    ensures
        r@ == s@.subrange(from as int, to as int),
{
    let sl: &[u8] = vstd::slice::slice_subrange(s.as_slice(), from, to);
    vstd::slice::slice_to_vec(sl)
}

/// Appends a copy of `s` to `out`.
pub fn push_all(out: &mut Vec<u8>, s: &Vec<u8>)
    ensures
        final(out)@ == old(out)@ + s@,
{
    let ghost orig: Seq<u8> = out@;
    let mut i: usize = 0;
    while i < s.len()
        invariant
            i <= s.len(),
            out@ == orig + s@.take(i as int),
        decreases s.len() - i,
    {
        out.push(s[i]);
        proof {
            assert(out@ =~= orig + s@.take(i as int + 1));
        }
        i = i + 1;
    }
    proof {
        assert(orig + s@.take(s@.len() as int) =~= orig + s@);
    }
}

/// A fresh copy of a byte string.
pub fn copy_bytes(s: &Vec<u8>) -> (r: Vec<u8>)
    ensures
        r@ == s@,
{
    let r = subvec(s, 0, s.len());
    proof {
        assert(s@.subrange(0, s@.len() as int) =~= s@);
    }
    r
}

/// The view of a vector of byte strings, element by element.
pub proof fn lemma_deep_view_is_views(v: &Vec<Vec<u8>>)
    ensures
        v.deep_view().len() == v@.len(),
        forall|k: int| 0 <= k < v@.len() ==> v.deep_view()[k] == v@[k]@,
{
    assert forall|k: int| 0 <= k < v@.len() implies v.deep_view()[k] == v@[k]@ by {
        assert(v@[k].deep_view() =~= v@[k]@);
    }
}

pub open spec fn is_ws(b: u8) -> bool {
    b == SPACE || b == TAB || b == LINE_FEED || b == CARRIAGE_RETURN
}

/// Whether `b` counts as blank space between fields of tool output.
pub fn is_ws_byte(b: u8) -> (r: bool)
    ensures
        r == is_ws(b),
{
    b == SPACE || b == TAB || b == LINE_FEED || b == CARRIAGE_RETURN
}

/// Index of the first blank byte in `s` at or after `i`, or `s.len()`.
pub open spec fn find_ws_from(s: Seq<u8>, i: int) -> int
    decreases s.len() - i,
{
    if i < 0 || i >= s.len() {
        s.len() as int
    } else if is_ws(s[i]) {
        i
    } else {
        find_ws_from(s, i + 1)
    }
}

pub proof fn lemma_find_ws_from(s: Seq<u8>, i: int)
    requires
        0 <= i <= s.len(),
    ensures
        i <= find_ws_from(s, i) <= s.len(),
        find_ws_from(s, i) < s.len() ==> is_ws(s[find_ws_from(s, i)]),
        forall|j: int| i <= j < find_ws_from(s, i) ==> !is_ws(s[j]),
    decreases s.len() - i,
{
    if i < s.len() && !is_ws(s[i]) {
        lemma_find_ws_from(s, i + 1);
    }
}

pub proof fn lemma_find_ws_from_is(s: Seq<u8>, i: int, p: int)
    requires
        0 <= i <= p <= s.len(),
        forall|j: int| i <= j < p ==> !is_ws(s[j]),
        p == s.len() || is_ws(s[p]),
    ensures
        find_ws_from(s, i) == p,
    decreases p - i,
{
    if i < p {
        lemma_find_ws_from_is(s, i + 1, p);
    }
}

/// First blank byte in `s` at or after `from`, or `s.len()`.
pub fn find_ws_byte(s: &Vec<u8>, from: usize) -> (r: usize)
    requires
        from <= s.len(),
    ensures
        r as int == find_ws_from(s@, from as int),
        from <= r <= s.len(),
{
    let n: usize = s.len();
    let mut i: usize = from;
    while i < n
        invariant
            from <= i <= n,
            n == s@.len(),
            forall|j: int| from <= j < i ==> !is_ws(s@[j]),
        decreases n - i,
    {
        if is_ws_byte(s[i]) {
            proof {
                lemma_find_ws_from_is(s@, from as int, i as int);
            }
            return i;
        }
        i = i + 1;
    }
    proof {
        lemma_find_ws_from_is(s@, from as int, n as int);
    }
    n
}

/// The blank-separated tokens of `s` from position `i` on.
pub open spec fn tokens_from(s: Seq<u8>, i: int) -> Seq<Seq<u8>>
    decreases s.len() - i,
    via tokens_from_decreases
{
    if i < 0 || i >= s.len() {
        Seq::empty()
    } else if is_ws(s[i]) {
        tokens_from(s, i + 1)
    } else {
        seq![s.subrange(i, find_ws_from(s, i))] + tokens_from(s, find_ws_from(s, i))
    }
}

#[via_fn]
proof fn tokens_from_decreases(s: Seq<u8>, i: int) {
    if 0 <= i < s.len() && !is_ws(s[i]) {
        lemma_find_ws_from(s, i);
        assert(find_ws_from(s, i) > i);
    }
}

/// Splits `s` into its blank-separated tokens.
pub fn split_tokens(s: &Vec<u8>) -> (r: Vec<Vec<u8>>)
    ensures
        r.deep_view() == tokens_from(s@, 0),
{
    let n: usize = s.len();
    let mut out: Vec<Vec<u8>> = Vec::new();
    let mut i: usize = 0;
    while i < n
        invariant
            i <= n,
            n == s@.len(),
            out.deep_view() + tokens_from(s@, i as int) =~= tokens_from(s@, 0),
        decreases n - i,
    {
        if is_ws_byte(s[i]) {
            i = i + 1;
        } else {
            let ghost before: Seq<Seq<u8>> = out.deep_view();
            let e = find_ws_byte(s, i);
            proof {
                lemma_find_ws_from(s@, i as int);
            }
            let t = subvec(s, i, e);
            out.push(t);
            proof {
                lemma_deep_view_is_views(&out);
                assert(out.deep_view() =~= before.push(t@));
                assert(before.push(t@) + tokens_from(s@, e as int) =~= before + (seq![t@]
                    + tokens_from(s@, e as int)));
            }
            i = e;
        }
    }
    proof {
        assert(out.deep_view() + tokens_from(s@, i as int) =~= out.deep_view());
    }
    out
}

/// The lines of `s`: segments between line feeds, the final segment
/// included even when empty.
pub open spec fn lines_from(s: Seq<u8>, i: int) -> Seq<Seq<u8>>
    decreases s.len() - i,
    via lines_from_decreases
{
    if i < 0 || i > s.len() {
        Seq::empty()
    } else {
        let e = find_from(s, i, LINE_FEED);
        if e >= s.len() {
            seq![s.subrange(i, s.len() as int)]
        } else {
            seq![s.subrange(i, e)] + lines_from(s, e + 1)
        }
    }
}

#[via_fn]
proof fn lines_from_decreases(s: Seq<u8>, i: int) {
    if 0 <= i <= s.len() {
        lemma_find_from(s, i, LINE_FEED);
    }
}

/// Splits `s` at line feeds.
pub fn split_lines(s: &Vec<u8>) -> (r: Vec<Vec<u8>>)
    ensures
        r.deep_view() == lines_from(s@, 0),
{
    let n: usize = s.len();
    let mut out: Vec<Vec<u8>> = Vec::new();
    let mut i: usize = 0;
    loop
        invariant_except_break
            i <= n,
            n == s@.len(),
            out.deep_view() + lines_from(s@, i as int) =~= lines_from(s@, 0),
        ensures
            out.deep_view() == lines_from(s@, 0),
        decreases n - i,
    {
        let ghost before: Seq<Seq<u8>> = out.deep_view();
        let e = find_byte(s, i, LINE_FEED);
        if e >= n {
            let t = subvec(s, i, n);
            out.push(t);
            proof {
                lemma_deep_view_is_views(&out);
                assert(out.deep_view() =~= before.push(t@));
                assert(before.push(t@) =~= before + seq![t@]);
                assert(out.deep_view() =~= lines_from(s@, 0));
            }
            break;
        }
        let t = subvec(s, i, e);
        out.push(t);
        proof {
            lemma_deep_view_is_views(&out);
            assert(out.deep_view() =~= before.push(t@));
            assert(before.push(t@) + lines_from(s@, e as int + 1) =~= before + (seq![t@]
                + lines_from(s@, e as int + 1)));
        }
        i = e + 1;
    }
    out
}

/// Position after which only blank bytes follow, scanning back from `j`.
pub open spec fn trim_end_from(s: Seq<u8>, j: int) -> int
    decreases j,
{
    if j <= 0 {
        0
    } else if is_ws(s[j - 1]) {
        trim_end_from(s, j - 1)
    } else {
        j
    }
}

/// First non-blank position in `s`, written through `find_ws_from`'s
/// mirror image.
pub open spec fn trim_start(s: Seq<u8>) -> int
    decreases s.len(),
{
    trim_start_from(s, 0)
}

pub open spec fn trim_start_from(s: Seq<u8>, i: int) -> int
    decreases s.len() - i,
{
    if i < 0 || i >= s.len() {
        s.len() as int
    } else if !is_ws(s[i]) {
        i
    } else {
        trim_start_from(s, i + 1)
    }
}

/// `s` with leading and trailing blank bytes removed.
pub open spec fn trim_spec(s: Seq<u8>) -> Seq<u8> {
    let a = trim_start(s);
    let b = trim_end_from(s, s.len() as int);
    if a <= b {
        s.subrange(a, b)
    } else {
        Seq::empty()
    }
}

proof fn lemma_trim_start_from_is(s: Seq<u8>, i: int, p: int)
    requires
        0 <= i <= p <= s.len(),
        forall|j: int| i <= j < p ==> is_ws(s[j]),
        p == s.len() || !is_ws(s[p]),
    ensures
        trim_start_from(s, i) == p,
    decreases p - i,
{
    if i < p {
        lemma_trim_start_from_is(s, i + 1, p);
    }
}

proof fn lemma_trim_end_all_ws(s: Seq<u8>, j: int)
    requires
        0 <= j <= s.len(),
        forall|k: int| 0 <= k < j ==> is_ws(s[k]),
    ensures
        trim_end_from(s, j) == 0,
    decreases j,
{
    if j > 0 {
        lemma_trim_end_all_ws(s, j - 1);
    }
}

/// `s` without leading and trailing blank bytes.
pub fn trim(s: &Vec<u8>) -> (r: Vec<u8>)
    ensures
        r@ == trim_spec(s@),
{
    let n: usize = s.len();
    let mut a: usize = 0;
    while a < n && is_ws_byte(s[a])
        invariant
            a <= n,
            n == s@.len(),
            forall|j: int| 0 <= j < a ==> is_ws(s@[j]),
        decreases n - a,
    {
        a = a + 1;
    }
    proof {
        lemma_trim_start_from_is(s@, 0, a as int);
    }
    if a == n {
        proof {
            lemma_trim_end_all_ws(s@, n as int);
        }
        let r: Vec<u8> = Vec::new();
        proof {
            assert(r@ =~= trim_spec(s@));
        }
        return r;
    }
    let mut b: usize = n;
    while b > a + 1 && is_ws_byte(s[b - 1])
        invariant
            a < b <= n,
            n == s@.len(),
            !is_ws(s@[a as int]),
            trim_end_from(s@, b as int) == trim_end_from(s@, n as int),
        decreases b,
    {
        b = b - 1;
    }
    subvec(s, a, b)
}

/// Lexicographic comparison of two byte strings.
pub fn lex_lt(a: &Vec<u8>, b: &Vec<u8>) -> (r: bool)
    ensures
        r == bytes_lt(a@, b@),
{
    let mut i: usize = 0;
    while i < a.len() && i < b.len()
        invariant
            i <= a.len(),
            i <= b.len(),
            forall|j: int| 0 <= j < i ==> a@[j] == b@[j],
        decreases a.len() - i,
    {
        proof {
            lemma_bytes_lt_common_prefix(a@, b@, i as int);
        }
        if a[i] < b[i] {
            return true;
        }
        if a[i] > b[i] {
            return false;
        }
        i = i + 1;
    }
    proof {
        lemma_bytes_lt_common_prefix(a@, b@, i as int);
    }
    a.len() < b.len()
}

} // verus!
