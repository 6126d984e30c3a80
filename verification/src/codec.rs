//! Snapshot identifier codec.
//!
//! A snapshot name follows one fixed grammar:
//!
//! ```text
//! @_<rootName>-<rootId>-<tag>-<tagSequence>-<YYYYMMDD>
//! ```
//!
//! `rootName` and `tag` are non-empty byte strings free of `-`; `rootId` and
//! `tagSequence` are decimal numbers without leading zeros; the date is
//! exactly eight digits. Any other string is not a snapshot name: parsing
//! reports that, it never fails hard.
//!
//! The codec also defines the order that "latest snapshot" refers to
//! everywhere else: by date, then by tag sequence, with the remaining fields
//! breaking ties so that the order is total.

use vstd::prelude::*;

use crate::text::{
    byte_free, bytes_lt, bytes_eq, find_byte, find_from, lemma_find_from, lemma_find_from_is,
    lex_lt, push_all, subvec, AT_SIGN, DASH, DIGIT_NINE, DIGIT_ZERO, UNDERSCORE,
};

verus! {

/// Parsed form of a snapshot name.
pub struct SnapshotId {
    /// Base image lineage this snapshot derives from.
    pub root_name: Vec<u8>,
    /// Counter distinguishing independently created root lineages.
    pub root_id: u64,
    /// User- or system-assigned label grouping related snapshots.
    pub tag: Vec<u8>,
    /// Counter unique within one (root, tag) pairing.
    pub tag_sequence: u64,
    /// Calendar date the snapshot was taken, as YYYYMMDD.
    pub date: u64,
}

/// Mathematical model of a `SnapshotId`.
pub struct SnapshotIdView {
    pub root_name: Seq<u8>,
    pub root_id: int,
    pub tag: Seq<u8>,
    pub tag_sequence: int,
    pub date: int,
}

impl View for SnapshotId {
    type V = SnapshotIdView;

    open spec fn view(&self) -> SnapshotIdView {
        SnapshotIdView {
            root_name: self.root_name@,
            root_id: self.root_id as int,
            tag: self.tag@,
            tag_sequence: self.tag_sequence as int,
            date: self.date as int,
        }
    }
}

/// The identifiers the grammar can express: non-empty dash-free name and
/// tag, numbers that fit the machine word, an eight-digit date.
pub open spec fn valid_id(v: SnapshotIdView) -> bool {
    &&& v.root_name.len() > 0
    &&& byte_free(v.root_name, DASH)
    &&& v.tag.len() > 0
    &&& byte_free(v.tag, DASH)
    &&& 0 <= v.root_id <= u64::MAX as int
    &&& 0 <= v.tag_sequence <= u64::MAX as int
    &&& 0 <= v.date < 100000000
}

pub open spec fn is_digit(b: u8) -> bool {
    DIGIT_ZERO <= b <= DIGIT_NINE
}

pub open spec fn all_digits(s: Seq<u8>) -> bool {
    forall|i: int| 0 <= i < s.len() ==> is_digit(s[i])
}

/// Digit strings that the formatter produces for free-width numbers:
/// non-empty, and no leading zero unless the number is zero itself.
pub open spec fn canonical_digits(s: Seq<u8>) -> bool {
    s.len() > 0 && all_digits(s) && (s.len() == 1 || s[0] != DIGIT_ZERO)
}

pub open spec fn digit_of(d: int) -> u8 {
    (DIGIT_ZERO as int + d) as u8
}

/// Decimal digits of `n` without leading zeros.
pub open spec fn dec_digits(n: int) -> Seq<u8>
    decreases n,
{
    if n < 10 {
        seq![digit_of(n)]
    } else {
        dec_digits(n / 10).push(digit_of(n % 10))
    }
}

pub open spec fn pow10(w: nat) -> int
    decreases w,
{
    if w == 0 {
        1
    } else {
        10 * pow10((w - 1) as nat)
    }
}

/// Decimal digits of `n`, zero-padded to exactly `w` digits.
pub open spec fn pad_digits(n: int, w: nat) -> Seq<u8>
    decreases w,
{
    if w == 0 {
        Seq::empty()
    } else {
        pad_digits(n / 10, (w - 1) as nat).push(digit_of(n % 10))
    }
}

/// Numeric value of a digit string.
pub open spec fn digits_val(s: Seq<u8>) -> int
    decreases s.len(),
{
    if s.len() == 0 {
        0
    } else {
        digits_val(s.drop_last()) * 10 + (s.last() - DIGIT_ZERO)
    }
}

/// The one name a valid identifier formats to.
pub open spec fn format_spec(v: SnapshotIdView) -> Seq<u8> {
    seq![AT_SIGN, UNDERSCORE] + v.root_name + seq![DASH] + dec_digits(v.root_id) + seq![DASH]
        + v.tag + seq![DASH] + dec_digits(v.tag_sequence) + seq![DASH] + pad_digits(v.date, 8)
}

pub proof fn lemma_pow10_8()
    ensures
        pow10(8) == 100000000,
{
    reveal_with_fuel(pow10, 9);
}

pub proof fn lemma_all_digits_drop_last(s: Seq<u8>)
    requires
        all_digits(s),
        s.len() > 0,
    ensures
        all_digits(s.drop_last()),
{
    assert forall|i: int| 0 <= i < s.drop_last().len() implies is_digit(s.drop_last()[i]) by {
        assert(s.drop_last()[i] == s[i]);
    }
}

pub proof fn lemma_digits_val_nonneg(s: Seq<u8>)
    requires
        all_digits(s),
    ensures
        digits_val(s) >= 0,
    decreases s.len(),
{
    if s.len() > 0 {
        lemma_all_digits_drop_last(s);
        lemma_digits_val_nonneg(s.drop_last());
    }
}

/// A digit string with a non-zero leading digit has a positive value.
pub proof fn lemma_digits_val_pos(s: Seq<u8>)
    requires
        all_digits(s),
        s.len() >= 1,
        s[0] != DIGIT_ZERO,
    ensures
        digits_val(s) >= 1,
    decreases s.len(),
{
    if s.len() == 1 {
        assert(is_digit(s[0]));
        assert(s.last() == s[0]);
        assert(s.drop_last() =~= Seq::<u8>::empty());
        assert(digits_val(s) == digits_val(s.drop_last()) * 10 + (s.last() - DIGIT_ZERO));
    } else {
        lemma_all_digits_drop_last(s);
        assert(s.drop_last()[0] == s[0]);
        lemma_digits_val_pos(s.drop_last());
        assert(is_digit(s[s.len() - 1]));
        assert(s.last() == s[s.len() - 1]);
    }
}

/// A digit string of width `w` has a value below `pow10(w)`.
pub proof fn lemma_digits_val_upper(s: Seq<u8>)
    requires
        all_digits(s),
    ensures
        digits_val(s) < pow10(s.len()),
    decreases s.len(),
{
    if s.len() > 0 {
        lemma_all_digits_drop_last(s);
        lemma_digits_val_upper(s.drop_last());
        lemma_digits_val_nonneg(s.drop_last());
    }
}

/// `dec_digits` produces a canonical digit string whose value is `n`.
pub proof fn lemma_dec_digits_props(n: int)
    requires
        n >= 0,
    ensures
        all_digits(dec_digits(n)),
        canonical_digits(dec_digits(n)),
        n >= 1 ==> dec_digits(n)[0] != DIGIT_ZERO,
        digits_val(dec_digits(n)) == n,
    decreases n,
{
    if n < 10 {
        let s = dec_digits(n);
        assert(s == seq![digit_of(n)]);
        assert(s.drop_last() =~= Seq::<u8>::empty());
        assert(s.last() == digit_of(n));
        assert(digit_of(n) - DIGIT_ZERO == n);
        assert(digits_val(s) == digits_val(s.drop_last()) * 10 + (s.last() - DIGIT_ZERO));
    } else {
        lemma_dec_digits_props(n / 10);
        let d = dec_digits(n / 10);
        let s = d.push(digit_of(n % 10));
        assert(s.drop_last() =~= d);
        assert(s[0] == d[0]);
        assert forall|i: int| 0 <= i < s.len() implies is_digit(s[i]) by {
            if i < d.len() {
                assert(s[i] == d[i]);
            }
        }
        assert(s.last() == digit_of(n % 10));
        assert(digit_of(n % 10) - DIGIT_ZERO == n % 10);
        assert(digits_val(s) == digits_val(d) * 10 + (n % 10));
        assert(digits_val(s) == (n / 10) * 10 + (n % 10));
    }
}

/// Reading a canonical digit string back gives the digits of its value.
pub proof fn lemma_dec_of_val(s: Seq<u8>)
    requires
        canonical_digits(s),
    ensures
        dec_digits(digits_val(s)) == s,
        s.len() >= 2 ==> digits_val(s) >= 10,
    decreases s.len(),
{
    if s.len() == 1 {
        assert(s.drop_last() =~= Seq::<u8>::empty());
        assert(dec_digits(digits_val(s)) =~= s);
    } else {
        let p = s.drop_last();
        lemma_all_digits_drop_last(s);
        assert(p[0] == s[0]);
        lemma_dec_of_val(p);
        lemma_digits_val_pos(p);
        let v = digits_val(s);
        let d = s.last() - DIGIT_ZERO;
        assert(v == digits_val(p) * 10 + d);
        assert(v / 10 == digits_val(p) && v % 10 == d);
        assert(dec_digits(v) == dec_digits(v / 10).push(digit_of(v % 10)));
        assert(dec_digits(v) =~= s);
    }
}

/// `pad_digits` produces exactly `w` digits whose value is `n`.
pub proof fn lemma_pad_digits_props(n: int, w: nat)
    requires
        0 <= n < pow10(w),
    ensures
        pad_digits(n, w).len() == w,
        all_digits(pad_digits(n, w)),
        digits_val(pad_digits(n, w)) == n,
    decreases w,
{
    if w == 0 {
    } else {
        assert(n / 10 < pow10((w - 1) as nat));
        lemma_pad_digits_props(n / 10, (w - 1) as nat);
        let d = pad_digits(n / 10, (w - 1) as nat);
        let s = d.push(digit_of(n % 10));
        assert(s.drop_last() =~= d);
        assert forall|i: int| 0 <= i < s.len() implies is_digit(s[i]) by {
            if i < d.len() {
                assert(s[i] == d[i]);
            }
        }
    }
}

/// Reading a fixed-width digit string back gives the padded digits of its
/// value.
pub proof fn lemma_pad_of_val(s: Seq<u8>, w: nat)
    requires
        all_digits(s),
        s.len() == w,
    ensures
        pad_digits(digits_val(s), w) == s,
    decreases w,
{
    if w > 0 {
        let p = s.drop_last();
        lemma_all_digits_drop_last(s);
        lemma_pad_of_val(p, (w - 1) as nat);
        lemma_digits_val_nonneg(p);
        let v = digits_val(s);
        let d = s.last() - DIGIT_ZERO;
        assert(v == digits_val(p) * 10 + d);
        assert(v / 10 == digits_val(p) && v % 10 == d);
        assert(pad_digits(v, w) =~= s);
    }
}

pub proof fn lemma_digits_dash_free(s: Seq<u8>)
    requires
        all_digits(s),
    ensures
        byte_free(s, DASH),
{
    assert forall|i: int| 0 <= i < s.len() implies s[i] != DASH by {
        assert(is_digit(s[i]));
    }
}

/// The order behind "latest snapshot": by date, then tag sequence, with the
/// remaining fields breaking ties so that distinct identifiers are always
/// ordered.
pub open spec fn id_lt(a: SnapshotIdView, b: SnapshotIdView) -> bool {
    if a.date != b.date {
        a.date < b.date
    } else if a.tag_sequence != b.tag_sequence {
        a.tag_sequence < b.tag_sequence
    } else if a.root_id != b.root_id {
        a.root_id < b.root_id
    } else if a.root_name != b.root_name {
        bytes_lt(a.root_name, b.root_name)
    } else {
        bytes_lt(a.tag, b.tag)
    }
}

/// The order is strict: no identifier precedes itself.
pub proof fn lemma_id_order_irreflexive(a: SnapshotIdView)
    ensures
        !id_lt(a, a),
{
    crate::text::lemma_bytes_lt_irreflexive(a.tag);
}

/// Distinct identifiers are always ordered one way or the other.
pub proof fn lemma_id_order_connected(a: SnapshotIdView, b: SnapshotIdView)
    requires
        a != b,
    ensures
        id_lt(a, b) || id_lt(b, a),
{
    if a.date == b.date && a.tag_sequence == b.tag_sequence && a.root_id == b.root_id {
        if a.root_name != b.root_name {
            crate::text::lemma_bytes_lt_connected(a.root_name, b.root_name);
        } else {
            assert(a.tag != b.tag);
            crate::text::lemma_bytes_lt_connected(a.tag, b.tag);
        }
    }
}

/// The order is transitive; with irreflexivity and connectedness it is a
/// strict total order on identifiers, in particular among all snapshots
/// sharing one tag.
pub proof fn lemma_id_order_transitive(a: SnapshotIdView, b: SnapshotIdView, c: SnapshotIdView)
    requires
        id_lt(a, b),
        id_lt(b, c),
    ensures
        id_lt(a, c),
{
    if a.date == c.date {
        assert(a.date == b.date && b.date == c.date);
        if a.tag_sequence == c.tag_sequence {
            assert(a.tag_sequence == b.tag_sequence && b.tag_sequence == c.tag_sequence);
            if a.root_id == c.root_id {
                assert(a.root_id == b.root_id && b.root_id == c.root_id);
                if a.root_name == c.root_name {
                    if a.root_name != b.root_name {
                        crate::text::lemma_bytes_lt_transitive(
                            a.root_name,
                            b.root_name,
                            a.root_name,
                        );
                        crate::text::lemma_bytes_lt_irreflexive(a.root_name);
                    } else {
                        crate::text::lemma_bytes_lt_transitive(a.tag, b.tag, c.tag);
                    }
                } else {
                    if a.root_name == b.root_name {
                    } else if b.root_name == c.root_name {
                    } else {
                        crate::text::lemma_bytes_lt_transitive(
                            a.root_name,
                            b.root_name,
                            c.root_name,
                        );
                    }
                }
            }
        }
    }
}

/// Whether snapshot `a` was taken before snapshot `b` in the codec order.
pub fn precedes(a: &SnapshotId, b: &SnapshotId) -> (r: bool)
    ensures
        r == id_lt(a@, b@),
{
    if a.date != b.date {
        return a.date < b.date;
    }
    if a.tag_sequence != b.tag_sequence {
        return a.tag_sequence < b.tag_sequence;
    }
    if a.root_id != b.root_id {
        return a.root_id < b.root_id;
    }
    if !bytes_eq(&a.root_name, &b.root_name) {
        return lex_lt(&a.root_name, &b.root_name);
    }
    lex_lt(&a.tag, &b.tag)
}

fn push_decimal(out: &mut Vec<u8>, n: u64)
    ensures
        final(out)@ == old(out)@ + dec_digits(n as int),
    decreases n,
{
    if n < 10 {
        out.push(DIGIT_ZERO + (n as u8));
        proof {
            assert(out@ =~= old(out)@ + dec_digits(n as int));
        }
    } else {
        push_decimal(out, n / 10);
        out.push(DIGIT_ZERO + ((n % 10) as u8));
        proof {
            assert(out@ =~= old(out)@ + dec_digits(n as int));
        }
    }
}

fn push_padded(out: &mut Vec<u8>, n: u64, w: usize)
    requires
        (n as int) < pow10(w as nat),
    ensures
        final(out)@ == old(out)@ + pad_digits(n as int, w as nat),
    decreases w,
{
    if w == 0 {
        proof {
            assert(out@ =~= old(out)@ + pad_digits(n as int, 0));
        }
    } else {
        proof {
            assert((n as int) / 10 < pow10((w - 1) as nat));
        }
        push_padded(out, n / 10, w - 1);
        out.push(DIGIT_ZERO + ((n % 10) as u8));
        proof {
            assert(out@ =~= old(out)@ + pad_digits(n as int, w as nat));
        }
    }
}

/// Renders a valid identifier as the one snapshot name of the grammar.
pub fn format(id: &SnapshotId) -> (r: Vec<u8>)
    requires
        valid_id(id@),
    ensures
        r@ == format_spec(id@),
{
    let mut out: Vec<u8> = Vec::new();
    out.push(AT_SIGN);
    out.push(UNDERSCORE);
    push_all(&mut out, &id.root_name);
    out.push(DASH);
    push_decimal(&mut out, id.root_id);
    out.push(DASH);
    push_all(&mut out, &id.tag);
    out.push(DASH);
    push_decimal(&mut out, id.tag_sequence);
    out.push(DASH);
    proof {
        lemma_pow10_8();
    }
    push_padded(&mut out, id.date, 8);
    proof {
        assert(out@ =~= format_spec(id@));
    }
    out
}

/// The one identifier a name parses to, or `None` when the name does not
/// follow the grammar.
pub open spec fn parse_spec(s: Seq<u8>) -> Option<SnapshotIdView> {
    if s.len() < 2 || s[0] != AT_SIGN || s[1] != UNDERSCORE {
        None
    } else {
        let p1 = find_from(s, 2, DASH);
        let p2 = find_from(s, p1 + 1, DASH);
        let p3 = find_from(s, p2 + 1, DASH);
        let p4 = find_from(s, p3 + 1, DASH);
        let p5 = find_from(s, p4 + 1, DASH);
        if p4 >= s.len() || p5 < s.len() {
            None
        } else {
            let root_name = s.subrange(2, p1);
            let num1 = s.subrange(p1 + 1, p2);
            let tag = s.subrange(p2 + 1, p3);
            let num2 = s.subrange(p3 + 1, p4);
            let date = s.subrange(p4 + 1, s.len() as int);
            if root_name.len() == 0 || tag.len() == 0 {
                None
            } else if !canonical_digits(num1) || digits_val(num1) > u64::MAX as int {
                None
            } else if !canonical_digits(num2) || digits_val(num2) > u64::MAX as int {
                None
            } else if date.len() != 8 || !all_digits(date) {
                None
            } else {
                Some(
                    SnapshotIdView {
                        root_name: root_name,
                        root_id: digits_val(num1),
                        tag: tag,
                        tag_sequence: digits_val(num2),
                        date: digits_val(date),
                    },
                )
            }
        }
    }
}

/// A name only ever parses to a valid identifier, and to the identifier
/// whose formatted form is that very name: anything else is reported as
/// not a snapshot.
pub proof fn lemma_parse_sound(s: Seq<u8>, v: SnapshotIdView)
    requires
        parse_spec(s) == Some(v),
    ensures
        valid_id(v),
        format_spec(v) == s,
{
    let len = s.len() as int;
    let p1 = find_from(s, 2, DASH);
    let p2 = find_from(s, p1 + 1, DASH);
    let p3 = find_from(s, p2 + 1, DASH);
    let p4 = find_from(s, p3 + 1, DASH);
    let p5 = find_from(s, p4 + 1, DASH);
    lemma_find_from(s, 2, DASH);
    if p1 >= len {
        assert(p4 >= len);
    }
    lemma_find_from(s, p1 + 1, DASH);
    if p2 >= len {
        assert(p4 >= len);
    }
    lemma_find_from(s, p2 + 1, DASH);
    if p3 >= len {
        assert(p4 >= len);
    }
    lemma_find_from(s, p3 + 1, DASH);
    lemma_find_from(s, p4 + 1, DASH);
    let root_name = s.subrange(2, p1);
    let num1 = s.subrange(p1 + 1, p2);
    let tag = s.subrange(p2 + 1, p3);
    let num2 = s.subrange(p3 + 1, p4);
    let date = s.subrange(p4 + 1, len);
    assert(v == SnapshotIdView {
        root_name: root_name,
        root_id: digits_val(num1),
        tag: tag,
        tag_sequence: digits_val(num2),
        date: digits_val(date),
    });
    assert forall|i: int| 0 <= i < root_name.len() implies root_name[i] != DASH by {
        assert(root_name[i] == s[2 + i]);
    }
    assert forall|i: int| 0 <= i < tag.len() implies tag[i] != DASH by {
        assert(tag[i] == s[p2 + 1 + i]);
    }
    lemma_digits_val_nonneg(num1);
    lemma_digits_val_nonneg(num2);
    lemma_digits_val_nonneg(date);
    lemma_digits_val_upper(date);
    lemma_pow10_8();
    assert(valid_id(v));
    lemma_dec_of_val(num1);
    lemma_dec_of_val(num2);
    lemma_pad_of_val(date, 8);
    assert(format_spec(v) =~= s);
}

/// Formatting a valid identifier and parsing the result gives the
/// identifier back.
pub proof fn lemma_parse_format(v: SnapshotIdView)
    requires
        valid_id(v),
    ensures
        parse_spec(format_spec(v)) == Some(v),
{
    let s = format_spec(v);
    let n1 = dec_digits(v.root_id);
    let n2 = dec_digits(v.tag_sequence);
    let dt = pad_digits(v.date, 8);
    lemma_dec_digits_props(v.root_id);
    lemma_dec_digits_props(v.tag_sequence);
    lemma_pow10_8();
    lemma_pad_digits_props(v.date, 8);
    lemma_digits_dash_free(n1);
    lemma_digits_dash_free(n2);
    lemma_digits_dash_free(dt);
    let a1 = 2 + v.root_name.len() as int;
    let a2 = a1 + 1 + n1.len() as int;
    let a3 = a2 + 1 + v.tag.len() as int;
    let a4 = a3 + 1 + n2.len() as int;
    let len = s.len() as int;
    assert(len == a4 + 9);
    assert(s[0] == AT_SIGN);
    assert(s[1] == UNDERSCORE);
    assert(s[a1] == DASH);
    assert(s[a2] == DASH);
    assert(s[a3] == DASH);
    assert(s[a4] == DASH);
    assert forall|j: int| 2 <= j < a1 implies s[j] != DASH by {
        assert(s[j] == v.root_name[j - 2]);
    }
    assert forall|j: int| a1 + 1 <= j < a2 implies s[j] != DASH by {
        assert(s[j] == n1[j - a1 - 1]);
    }
    assert forall|j: int| a2 + 1 <= j < a3 implies s[j] != DASH by {
        assert(s[j] == v.tag[j - a2 - 1]);
    }
    assert forall|j: int| a3 + 1 <= j < a4 implies s[j] != DASH by {
        assert(s[j] == n2[j - a3 - 1]);
    }
    assert forall|j: int| a4 + 1 <= j < len implies s[j] != DASH by {
        assert(s[j] == dt[j - a4 - 1]);
    }
    lemma_find_from_is(s, 2, a1, DASH);
    lemma_find_from_is(s, a1 + 1, a2, DASH);
    lemma_find_from_is(s, a2 + 1, a3, DASH);
    lemma_find_from_is(s, a3 + 1, a4, DASH);
    lemma_find_from_is(s, a4 + 1, len, DASH);
    assert(s.subrange(2, a1) =~= v.root_name);
    assert(s.subrange(a1 + 1, a2) =~= n1);
    assert(s.subrange(a2 + 1, a3) =~= v.tag);
    assert(s.subrange(a3 + 1, a4) =~= n2);
    assert(s.subrange(a4 + 1, len) =~= dt);
    assert(parse_spec(s) == Some(v));
}

/// Two distinct valid identifiers never share a name.
pub proof fn lemma_format_injective(a: SnapshotIdView, b: SnapshotIdView)
    requires
        valid_id(a),
        valid_id(b),
        format_spec(a) == format_spec(b),
    ensures
        a == b,
{
    lemma_parse_format(a);
    lemma_parse_format(b);
}

/// The value of a digit string never falls when the string is extended.
proof fn lemma_digits_val_prefix(s: Seq<u8>, from: int, mid: int, to: int)
    requires
        0 <= from <= mid <= to <= s.len(),
        all_digits(s.subrange(from, to)),
    ensures
        digits_val(s.subrange(from, mid)) <= digits_val(s.subrange(from, to)),
    decreases to - mid,
{
    if mid < to {
        let whole = s.subrange(from, to);
        let shorter = s.subrange(from, to - 1);
        assert(whole.drop_last() =~= shorter);
        assert forall|i: int| 0 <= i < shorter.len() implies is_digit(shorter[i]) by {
            assert(shorter[i] == whole[i]);
        }
        lemma_digits_val_prefix(s, from, mid, to - 1);
        lemma_digits_val_nonneg(shorter);
        assert(is_digit(whole[to - from - 1]));
        assert(whole.last() == whole[to - from - 1]);
        assert(digits_val(whole) == digits_val(shorter) * 10 + (whole.last() - DIGIT_ZERO));
    }
}

/// Reads `s[from..to]` as a decimal number without leading zeros.
fn parse_u64(s: &Vec<u8>, from: usize, to: usize) -> (r: Option<u64>)
    requires
        from <= to <= s.len(),
    ensures
        ({
            let part = s@.subrange(from as int, to as int);
            match r {
                Some(n) => canonical_digits(part) && digits_val(part) == n as int,
                None => !(canonical_digits(part) && digits_val(part) <= u64::MAX as int),
            }
        }),
{
    let ghost part: Seq<u8> = s@.subrange(from as int, to as int);
    if from == to {
        return None;
    }
    if s[from] == DIGIT_ZERO && to - from > 1 {
        proof {
            assert(part[0] == DIGIT_ZERO);
        }
        return None;
    }
    let mut acc: u64 = 0;
    let mut i: usize = from;
    while i < to
        invariant
            from <= i <= to <= s.len(),
            all_digits(s@.subrange(from as int, i as int)),
            acc as int == digits_val(s@.subrange(from as int, i as int)),
        decreases to - i,
    {
        let b = s[i];
        if b < DIGIT_ZERO || b > DIGIT_NINE {
            proof {
                assert(s@.subrange(from as int, to as int)[i - from] == b);
            }
            return None;
        }
        let d: u64 = (b - DIGIT_ZERO) as u64;
        let ghost seen: Seq<u8> = s@.subrange(from as int, i as int);
        let ghost next: Seq<u8> = s@.subrange(from as int, i as int + 1);
        proof {
            assert(next.drop_last() =~= seen);
            assert(next.last() == b);
            assert forall|j: int| 0 <= j < next.len() implies is_digit(next[j]) by {
                if j < seen.len() {
                    assert(next[j] == seen[j]);
                }
            }
            assert(digits_val(next) == (acc as int) * 10 + (d as int));
        }
        if acc > (u64::MAX - d) / 10 {
            proof {
                assert((acc as int) * 10 + (d as int) > u64::MAX as int);
                if all_digits(s@.subrange(from as int, to as int)) {
                    lemma_digits_val_prefix(s@, from as int, i as int + 1, to as int);
                }
            }
            return None;
        }
        proof {
            assert((acc as int) * 10 + (d as int) <= u64::MAX as int);
        }
        acc = acc * 10 + d;
        i = i + 1;
    }
    proof {
        assert(s@.subrange(from as int, i as int) =~= part);
        if part.len() > 1 {
            assert(part[0] == s@[from as int]);
        }
    }
    Some(acc)
}

pub proof fn lemma_pow10_7()
    ensures
        pow10(7) == 10000000,
{
    reveal_with_fuel(pow10, 8);
}

/// Reads `s[from..to]` as an eight-digit date.
fn parse_date(s: &Vec<u8>, from: usize, to: usize) -> (r: Option<u64>)
    requires
        from <= to <= s.len(),
    ensures
        ({
            let part = s@.subrange(from as int, to as int);
            match r {
                Some(n) => part.len() == 8 && all_digits(part) && digits_val(part) == n as int
                    && n < 100000000,
                None => !(part.len() == 8 && all_digits(part)),
            }
        }),
{
    let ghost part: Seq<u8> = s@.subrange(from as int, to as int);
    if to - from != 8 {
        return None;
    }
    let mut acc: u64 = 0;
    let mut i: usize = from;
    while i < to
        invariant
            from <= i <= to <= s.len(),
            to - from == 8,
            all_digits(s@.subrange(from as int, i as int)),
            acc as int == digits_val(s@.subrange(from as int, i as int)),
            (acc as int) < pow10((i - from) as nat),
        decreases to - i,
    {
        let b = s[i];
        if b < DIGIT_ZERO || b > DIGIT_NINE {
            proof {
                assert(s@.subrange(from as int, to as int)[i - from] == b);
            }
            return None;
        }
        let d: u64 = (b - DIGIT_ZERO) as u64;
        let ghost seen: Seq<u8> = s@.subrange(from as int, i as int);
        let ghost next: Seq<u8> = s@.subrange(from as int, i as int + 1);
        proof {
            assert(next.drop_last() =~= seen);
            assert(next.last() == b);
            assert forall|j: int| 0 <= j < next.len() implies is_digit(next[j]) by {
                if j < seen.len() {
                    assert(next[j] == seen[j]);
                }
            }
            assert(digits_val(next) == (acc as int) * 10 + (d as int));
            lemma_pow10_mono((i - from) as nat, 7);
            lemma_pow10_7();
            assert(pow10((i + 1 - from) as nat) == 10 * pow10((i - from) as nat));
        }
        acc = acc * 10 + d;
        i = i + 1;
    }
    proof {
        assert(s@.subrange(from as int, i as int) =~= part);
        lemma_pow10_8();
        lemma_pow10_mono(8, 8);
    }
    Some(acc)
}

pub proof fn lemma_pow10_mono(a: nat, b: nat)
    requires
        a <= b,
    ensures
        pow10(a) <= pow10(b),
        pow10(a) >= 1,
    decreases b,
{
    if a == b {
        if b > 0 {
            lemma_pow10_mono((a - 1) as nat, (b - 1) as nat);
        }
    } else {
        lemma_pow10_mono(a, (b - 1) as nat);
    }
}

/// Parses a snapshot name. Any string outside the grammar is reported as
/// `None`, not a snapshot: callers filter on it, they never abort.
pub fn parse(name: &Vec<u8>) -> (r: Option<SnapshotId>)
    ensures
        match r {
            Some(id) => parse_spec(name@) == Some(id@),
            None => parse_spec(name@) is None,
        },
{
    let n: usize = name.len();
    if n < 2 {
        return None;
    }
    if name[0] != AT_SIGN || name[1] != UNDERSCORE {
        return None;
    }
    let p1 = find_byte(name, 2, DASH);
    if p1 >= n {
        return None;
    }
    let p2 = find_byte(name, p1 + 1, DASH);
    if p2 >= n {
        return None;
    }
    let p3 = find_byte(name, p2 + 1, DASH);
    if p3 >= n {
        return None;
    }
    let p4 = find_byte(name, p3 + 1, DASH);
    if p4 >= n {
        return None;
    }
    let p5 = find_byte(name, p4 + 1, DASH);
    if p5 < n {
        return None;
    }
    if p1 == 2 {
        return None;
    }
    if p3 == p2 + 1 {
        return None;
    }
    let root_id: u64 = match parse_u64(name, p1 + 1, p2) {
        Some(value) => value,
        None => {
            return None;
        },
    };
    let tag_sequence: u64 = match parse_u64(name, p3 + 1, p4) {
        Some(value) => value,
        None => {
            return None;
        },
    };
    let date: u64 = match parse_date(name, p4 + 1, n) {
        Some(value) => value,
        None => {
            return None;
        },
    };
    let root_name = subvec(name, 2, p1);
    let tag = subvec(name, p2 + 1, p3);
    let id = SnapshotId { root_name, root_id, tag, tag_sequence, date };
    proof {
        assert(parse_spec(name@) == Some(id@));
    }
    Some(id)
}

} // verus!
