use vstd::prelude::*;
use vstd::utf8::{encode_utf8, encode_utf8_valid_utf8, valid_utf8, valid_utf8_concat};

use super::wire::extend_bytes;
use crate::text::{is_valid_utf8, lemma_valid_utf8_cut_at_ascii, str_bytes, string_bytes, string_from_utf8};

verus! {

/// Errors that can occur while building or reading an [`MdnsName`].
#[derive(Clone, Copy, PartialEq, Eq, Structural, PartialOrd, Ord, Debug)]
pub enum MdnsNameError {
    /// A textual name must end with a `.`.
    MustEndWithDot,
    /// A textual name may only hold ASCII letters and digits, `-`, `_` and
    /// `.`.
    InvalidCharacter,
    /// A label must contain at least one byte.
    LabelTooShort,
    /// A label must be 63 bytes or less.
    LabelTooLong,
    /// A label's length byte points past the end of the data.
    InvalidLabelLength {
        /// The length the label claims.
        length: usize,
        /// The number of bytes that remain after the length byte.
        max_length: usize,
    },
    /// A label is not valid UTF-8.
    InvalidUtf8Label,
    /// The labels do not end with a zero byte.
    InvalidEndOfLabels,
    /// Memory to hold the wire-format labels could not be allocated.
    AllocError,
}

} // verus!

verus! {

/// The wire form of one label: its length byte followed by its bytes.
pub open spec fn label_wire(label: Seq<u8>) -> Seq<u8> {
    seq![label.len() as u8] + label
}

/// The wire forms of a list of labels, one after the other, without the
/// terminating zero byte.
pub open spec fn labels_body(ls: Seq<Seq<u8>>) -> Seq<u8>
    decreases ls.len(),
{
    if ls.len() == 0 {
        Seq::empty()
    } else {
        label_wire(ls[0]) + labels_body(ls.drop_first())
    }
}

/// The wire form of a name made of the labels `ls`: each label's length and
/// bytes, then a zero byte.
pub open spec fn labels_wire(ls: Seq<Seq<u8>>) -> Seq<u8> {
    labels_body(ls) + seq![0u8]
}

/// A label that a name may hold: 1 to 63 bytes of valid UTF-8.
pub open spec fn label_ok(l: Seq<u8>) -> bool {
    1 <= l.len() <= 63 && valid_utf8(l)
}

/// Every label of `ls` is one a name may hold.
pub open spec fn labels_ok(ls: Seq<Seq<u8>>) -> bool {
    forall|k: int| 0 <= k < ls.len() ==> #[trigger] label_ok(ls[k])
}

/// The error for the first label of `ls` that is empty or longer than 63
/// bytes, if any.
pub open spec fn check_labels(ls: Seq<Seq<u8>>) -> Option<MdnsNameError>
    decreases ls.len(),
{
    if ls.len() == 0 {
        None
    } else if ls[0].len() == 0 {
        Some(MdnsNameError::LabelTooShort)
    } else if ls[0].len() > 63 {
        Some(MdnsNameError::LabelTooLong)
    } else {
        check_labels(ls.drop_first())
    }
}

/// Reading the labels of a wire-format name in `data` from position `i`:
/// the labels and the position of the terminating zero byte, or the error
/// met first.
pub open spec fn scan_labels(data: Seq<u8>, i: int) -> Result<
    (Seq<Seq<u8>>, int),
    MdnsNameError,
>
    decreases data.len() - i,
{
    if i < 0 || i >= data.len() {
        Err(MdnsNameError::InvalidEndOfLabels)
    } else {
        let l = data[i] as int;
        if l == 0 {
            Ok((Seq::empty(), i))
        } else if i + 1 + l > data.len() {
            Err(
                MdnsNameError::InvalidLabelLength {
                    length: l as usize,
                    max_length: (data.len() - (i + 1)) as usize,
                },
            )
        } else if !valid_utf8(data.subrange(i + 1, i + 1 + l)) {
            Err(MdnsNameError::InvalidUtf8Label)
        } else {
            match scan_labels(data, i + 1 + l) {
                Ok((ls, t)) => Ok((seq![data.subrange(i + 1, i + 1 + l)] + ls, t)),
                Err(e) => Err(e),
            }
        }
    }
}

/// Reading a wire-format name from `data` at position `i`: its wire bytes
/// and the position just after them, or the error met first.
pub open spec fn parse_name(data: Seq<u8>, i: int) -> Result<(Seq<u8>, int), MdnsNameError> {
    match scan_labels(data, i) {
        Err(e) => Err(e),
        Ok((ls, t)) => match check_labels(ls) {
            Some(e) => Err(e),
            None => Ok((labels_wire(ls), t + 1)),
        },
    }
}

/// Wire bytes that form exactly one valid name.
pub open spec fn name_wf(b: Seq<u8>) -> bool {
    parse_name(b, 0) == Ok::<(Seq<u8>, int), MdnsNameError>((b, b.len() as int))
}

/// The labels of a well-formed name's wire bytes.
pub open spec fn name_labels(b: Seq<u8>) -> Seq<Seq<u8>> {
    match scan_labels(b, 0) {
        Ok((ls, _)) => ls,
        Err(_) => Seq::empty(),
    }
}

/// Appending a label to a list appends its wire form to the list's.
pub proof fn lemma_labels_body_push(ls: Seq<Seq<u8>>, l: Seq<u8>)
    ensures
        labels_body(ls.push(l)) == labels_body(ls) + label_wire(l),
    decreases ls.len(),
{
    if ls.len() == 0 {
        assert(ls.push(l).drop_first() =~= Seq::<Seq<u8>>::empty());
        assert(labels_body(ls.push(l).drop_first()) =~= Seq::<u8>::empty());
        assert(ls.push(l)[0] == l);
        assert(labels_body(ls) =~= Seq::<u8>::empty());
        assert(labels_body(ls.push(l)) =~= labels_body(ls) + label_wire(l));
    } else {
        lemma_labels_body_push(ls.drop_first(), l);
        assert(ls.push(l).drop_first() =~= ls.drop_first().push(l));
        assert(ls.push(l)[0] == ls[0]);
        assert(labels_body(ls.push(l)) == label_wire(ls[0]) + labels_body(ls.drop_first().push(l)));
        assert(labels_body(ls.push(l)) =~= labels_body(ls) + label_wire(l));
    }
}

/// `check_labels` finds no error exactly when every label has 1 to 63
/// bytes.
pub proof fn lemma_check_labels_none(ls: Seq<Seq<u8>>)
    ensures
        check_labels(ls) is None <==> forall|k: int|
            0 <= k < ls.len() ==> 1 <= #[trigger] ls[k].len() <= 63,
    decreases ls.len(),
{
    if ls.len() > 0 {
        lemma_check_labels_none(ls.drop_first());
        if check_labels(ls) is None {
            assert forall|k: int| 0 <= k < ls.len() implies 1 <= #[trigger] ls[k].len() <= 63 by {
                if k > 0 {
                    assert(ls[k] == ls.drop_first()[k - 1]);
                }
            }
        }
        if forall|k: int| 0 <= k < ls.len() ==> 1 <= #[trigger] ls[k].len() <= 63 {
            assert forall|k: int| 0 <= k < ls.drop_first().len() implies 1
                <= #[trigger] ls.drop_first()[k].len() <= 63 by {
                assert(ls.drop_first()[k] == ls[k + 1]);
            }
            assert(1 <= ls[0].len() <= 63);
        }
    }
}

/// When every label before index `i` has 1 to 63 bytes and label `i` does
/// not, `check_labels` reports label `i`.
pub proof fn lemma_check_labels_first_bad(ls: Seq<Seq<u8>>, i: int)
    requires
        0 <= i < ls.len(),
        forall|k: int| 0 <= k < i ==> 1 <= #[trigger] ls[k].len() <= 63,
        !(1 <= ls[i].len() <= 63),
    ensures
        check_labels(ls) == Some(
            if ls[i].len() == 0 {
                MdnsNameError::LabelTooShort
            } else {
                MdnsNameError::LabelTooLong
            },
        ),
    decreases i,
{
    if i > 0 {
        assert(1 <= ls[0].len() <= 63);
        assert forall|k: int| 0 <= k < i - 1 implies 1 <= #[trigger] ls.drop_first()[k].len()
            <= 63 by {
            assert(ls.drop_first()[k] == ls[k + 1]);
        }
        assert(ls.drop_first()[i - 1] == ls[i]);
        lemma_check_labels_first_bad(ls.drop_first(), i - 1);
    }
}

/// The wire form of valid labels, found anywhere in `data`, reads back as
/// those labels, ending at its zero byte.
pub proof fn lemma_scan_wire(data: Seq<u8>, i: int, ls: Seq<Seq<u8>>)
    requires
        labels_ok(ls),
        0 <= i,
        i + labels_wire(ls).len() <= data.len(),
        data.subrange(i, i + labels_wire(ls).len()) == labels_wire(ls),
    ensures
        scan_labels(data, i) == Ok::<(Seq<Seq<u8>>, int), MdnsNameError>(
            (ls, i + labels_wire(ls).len() - 1),
        ),
        check_labels(ls) is None,
    decreases ls.len(),
{
    let w = labels_wire(ls);
    assert(data[i] == w[0]);
    if ls.len() == 0 {
        assert(w =~= seq![0u8]);
        assert(ls =~= Seq::<Seq<u8>>::empty());
    } else {
        let l0 = ls[0];
        assert(label_ok(l0));
        let n = l0.len() as int;
        let rest = ls.drop_first();
        assert(labels_ok(rest)) by {
            assert forall|k: int| 0 <= k < rest.len() implies #[trigger] label_ok(rest[k]) by {
                assert(rest[k] == ls[k + 1]);
            }
        }
        assert(w =~= label_wire(l0) + labels_wire(rest));
        assert(w[0] == n as u8);
        assert(data[i] as int == n);
        assert(data.subrange(i + 1, i + 1 + n) =~= l0) by {
            assert forall|k: int| 0 <= k < n implies data.subrange(i + 1, i + 1 + n)[k] == l0[k] by {
                assert(data[i + 1 + k] == w[1 + k]);
            }
        }
        let wr = labels_wire(rest);
        assert(data.subrange(i + 1 + n, i + 1 + n + wr.len()) =~= wr) by {
            assert forall|k: int| 0 <= k < wr.len() implies data.subrange(
                i + 1 + n,
                i + 1 + n + wr.len(),
            )[k] == wr[k] by {
                assert(data[i + 1 + n + k] == w[1 + n + k]);
            }
        }
        lemma_scan_wire(data, i + 1 + n, rest);
        assert(seq![l0] + rest =~= ls);
    }
}

/// What a successful read of labels guarantees: the zero byte ends it, the
/// bytes read are exactly the wire form of the labels read, and each label
/// is 1 to 255 bytes of valid UTF-8.
pub proof fn lemma_scan_result(data: Seq<u8>, i: int)
    ensures
        scan_labels(data, i) matches Ok((ls, t)) ==> {
            &&& 0 <= i <= t < data.len()
            &&& data[t] == 0
            &&& data.subrange(i, t + 1) == labels_wire(ls)
            &&& forall|k: int|
                0 <= k < ls.len() ==> 1 <= #[trigger] ls[k].len() <= 255 && valid_utf8(ls[k])
        },
    decreases data.len() - i,
{
    if 0 <= i < data.len() {
        let l = data[i] as int;
        if l != 0 && i + 1 + l <= data.len() && valid_utf8(data.subrange(i + 1, i + 1 + l)) {
            lemma_scan_result(data, i + 1 + l);
            if let Ok((rest, t)) = scan_labels(data, i + 1 + l) {
                let lab = data.subrange(i + 1, i + 1 + l);
                let ls = seq![lab] + rest;
                assert(scan_labels(data, i) == Ok::<(Seq<Seq<u8>>, int), MdnsNameError>((ls, t)));
                assert(ls[0] == lab);
                assert(ls.drop_first() =~= rest);
                assert(labels_wire(ls) =~= label_wire(lab) + labels_wire(rest));
                assert(data.subrange(i, t + 1) =~= label_wire(lab) + data.subrange(i + 1 + l, t + 1));
                assert forall|k: int| 0 <= k < ls.len() implies 1 <= #[trigger] ls[k].len() <= 255
                    && valid_utf8(ls[k]) by {
                    if k > 0 {
                        assert(ls[k] == rest[k - 1]);
                    }
                }
            }
        } else if l == 0 {
            assert(labels_wire(Seq::<Seq<u8>>::empty()) =~= seq![0u8]);
            assert(data.subrange(i, i + 1) =~= seq![0u8]);
        }
    }
}

/// The wire form of valid labels is a well-formed name whose labels are
/// those labels.
pub proof fn lemma_wire_wf(ls: Seq<Seq<u8>>)
    requires
        labels_ok(ls),
    ensures
        name_wf(labels_wire(ls)),
        name_labels(labels_wire(ls)) == ls,
{
    let w = labels_wire(ls);
    assert(w.subrange(0, w.len() as int) =~= w);
    lemma_scan_wire(w, 0, ls);
}

} // verus!

verus! {

/// A read of labels from some position, with `done` read before it.
pub open spec fn prepend_scan(
    done: Seq<Seq<u8>>,
    r: Result<(Seq<Seq<u8>>, int), MdnsNameError>,
) -> Result<(Seq<Seq<u8>>, int), MdnsNameError> {
    match r {
        Ok((ls, t)) => Ok((done + ls, t)),
        Err(e) => Err(e),
    }
}

/// A well-formed name's labels are valid labels, and their wire form is the
/// name.
pub proof fn lemma_wf_labels(w: Seq<u8>)
    requires
        name_wf(w),
    ensures
        labels_ok(name_labels(w)),
        labels_wire(name_labels(w)) == w,
        scan_labels(w, 0) == Ok::<(Seq<Seq<u8>>, int), MdnsNameError>(
            (name_labels(w), w.len() - 1),
        ),
{
    lemma_scan_result(w, 0);
    let ls = name_labels(w);
    lemma_check_labels_none(ls);
    assert forall|k: int| 0 <= k < ls.len() implies #[trigger] label_ok(ls[k]) by {
        assert(1 <= ls[k].len() <= 63);
    }
}

/// A well-formed name reads back as itself wherever it stands in `data`.
pub proof fn law_name_roundtrip(w: Seq<u8>, prefix: Seq<u8>, rest: Seq<u8>)
    requires
        name_wf(w),
    ensures
        parse_name(prefix + w + rest, prefix.len() as int) == Ok::<(Seq<u8>, int), MdnsNameError>(
            (w, (prefix.len() + w.len()) as int),
        ),
{
    lemma_wf_labels(w);
    let data = prefix + w + rest;
    let p = prefix.len() as int;
    assert(data.subrange(p, p + w.len()) =~= w);
    lemma_scan_wire(data, p, name_labels(w));
}

/// The bytes a textual name is written as: each label followed by a dot.
pub open spec fn labels_text(ls: Seq<Seq<u8>>) -> Seq<u8>
    decreases ls.len(),
{
    if ls.len() == 0 {
        Seq::empty()
    } else {
        ls[0] + seq![0x2Eu8] + labels_text(ls.drop_first())
    }
}

/// Appending a label appends it and a dot to the text.
pub proof fn lemma_labels_text_push(ls: Seq<Seq<u8>>, l: Seq<u8>)
    ensures
        labels_text(ls.push(l)) == labels_text(ls) + l + seq![0x2Eu8],
    decreases ls.len(),
{
    if ls.len() == 0 {
        assert(ls.push(l).drop_first() =~= Seq::<Seq<u8>>::empty());
        assert(labels_text(ls.push(l).drop_first()) =~= Seq::<u8>::empty());
        assert(ls.push(l)[0] == l);
        assert(labels_text(ls) =~= Seq::<u8>::empty());
        assert(labels_text(ls.push(l)) =~= labels_text(ls) + l + seq![0x2Eu8]);
    } else {
        lemma_labels_text_push(ls.drop_first(), l);
        assert(ls.push(l).drop_first() =~= ls.drop_first().push(l));
        assert(ls.push(l)[0] == ls[0]);
        assert(labels_text(ls.push(l)) =~= labels_text(ls) + l + seq![0x2Eu8]);
    }
}

/// `b` with every trailing dot removed.
pub open spec fn trim_dots(b: Seq<u8>) -> Seq<u8>
    decreases b.len(),
{
    if b.len() > 0 && b.last() == 0x2Eu8 {
        trim_dots(b.drop_last())
    } else {
        b
    }
}

/// The pieces of `b` between dots, in order; one piece more than there are
/// dots.
pub open spec fn split_dots(b: Seq<u8>) -> Seq<Seq<u8>>
    decreases b.len(),
{
    if b.len() == 0 {
        seq![Seq::empty()]
    } else {
        let p = split_dots(b.drop_last());
        if b.last() == 0x2Eu8 {
            p.push(Seq::empty())
        } else {
            p.update(p.len() - 1, p.last().push(b.last()))
        }
    }
}

/// The labels of a textual name whose UTF-8 bytes are `b`: the pieces
/// between dots, once the trailing dots are removed.
pub open spec fn text_labels(b: Seq<u8>) -> Seq<Seq<u8>> {
    split_dots(trim_dots(b))
}

/// Splitting always yields at least one piece.
pub proof fn lemma_split_dots_len(b: Seq<u8>)
    ensures
        split_dots(b).len() >= 1,
    decreases b.len(),
{
    if b.len() > 0 {
        lemma_split_dots_len(b.drop_last());
    }
}

/// Splitting a longer prefix keeps every complete piece of a shorter one.
pub proof fn lemma_split_dots_prefix(b: Seq<u8>, k: int, m: int)
    requires
        0 <= k <= m <= b.len(),
    ensures
        split_dots(b.take(m)).len() >= split_dots(b.take(k)).len(),
        forall|j: int|
            0 <= j < split_dots(b.take(k)).len() - 1 ==> #[trigger] split_dots(b.take(m))[j]
                == split_dots(b.take(k))[j],
    decreases m - k,
{
    if m > k {
        lemma_split_dots_prefix(b, k, m - 1);
        assert(b.take(m).drop_last() =~= b.take(m - 1));
        lemma_split_dots_len(b.take(m - 1));
    }
}

/// Trimming the dots at the end of a prefix that ends before the last
/// non-dot byte changes nothing.
pub proof fn lemma_trim_dots_take(b: Seq<u8>, e: int)
    requires
        0 <= e <= b.len(),
        forall|j: int| e <= j < b.len() ==> b[j] == 0x2Eu8,
    ensures
        trim_dots(b) == trim_dots(b.take(e)),
    decreases b.len() - e,
{
    if e < b.len() {
        assert(b.last() == 0x2Eu8);
        lemma_trim_dots_take(b.drop_last(), e);
        assert(b.drop_last().take(e) =~= b.take(e));
    } else {
        assert(b.take(e) =~= b);
    }
}

/// No label holds a dot byte.
pub open spec fn labels_dot_free(ls: Seq<Seq<u8>>) -> bool {
    forall|i: int, j: int| 0 <= i < ls.len() && 0 <= j < ls[i].len() ==> #[trigger] ls[i][j] != 0x2Eu8
}

/// Appending bytes without a dot to text extends its last piece.
proof fn lemma_split_dots_append(x: Seq<u8>, l: Seq<u8>)
    requires
        forall|j: int| 0 <= j < l.len() ==> l[j] != 0x2Eu8,
    ensures
        split_dots(x + l) == split_dots(x).update(
            split_dots(x).len() - 1,
            split_dots(x).last() + l,
        ),
    decreases l.len(),
{
    lemma_split_dots_len(x);
    if l.len() == 0 {
        assert(x + l =~= x);
        assert(split_dots(x).last() + l =~= split_dots(x).last());
        assert(split_dots(x).update(split_dots(x).len() - 1, split_dots(x).last()) =~= split_dots(x));
    } else {
        let ld = l.drop_last();
        lemma_split_dots_append(x, ld);
        assert((x + l).drop_last() =~= x + ld);
        assert((x + l).last() == l.last());
        let q = split_dots(x);
        let p = split_dots(x + ld);
        assert(p.len() == q.len());
        assert(p.last() == q.last() + ld);
        assert(p.last().push(l.last()) =~= q.last() + l);
        assert(split_dots(x + l) =~= q.update(q.len() - 1, q.last() + l));
    }
}

/// Splitting the text of the first `k` labels gives those labels and an
/// empty piece after the last dot.
proof fn lemma_split_labels_text(ls: Seq<Seq<u8>>, k: int)
    requires
        0 <= k <= ls.len(),
        labels_dot_free(ls),
    ensures
        split_dots(labels_text(ls.take(k))) == ls.take(k).push(Seq::<u8>::empty()),
    decreases k,
{
    if k == 0 {
        assert(ls.take(0) =~= Seq::<Seq<u8>>::empty());
        assert(labels_text(ls.take(0)) =~= Seq::<u8>::empty());
    } else {
        lemma_split_labels_text(ls, k - 1);
        let t = ls.take(k - 1);
        let l = ls[k - 1];
        lemma_labels_text_push(t, l);
        assert(ls.take(k) =~= t.push(l));
        let x = labels_text(t);
        assert forall|j: int| 0 <= j < l.len() implies l[j] != 0x2Eu8 by {
            assert(ls[k - 1][j] != 0x2Eu8);
        }
        lemma_split_dots_append(x, l);
        let b = x + l + seq![0x2Eu8];
        assert(b.drop_last() =~= x + l);
        assert(split_dots(x + l) =~= t.push(l));
        assert(split_dots(b) =~= t.push(l).push(Seq::<u8>::empty()));
    }
}

/// The text of labels free of dots, the last of them not empty, splits back
/// into those labels.
pub proof fn lemma_text_labels_of_text(ls: Seq<Seq<u8>>)
    requires
        ls.len() > 0,
        ls.last().len() > 0,
        labels_dot_free(ls),
    ensures
        labels_text(ls).len() > 0 && labels_text(ls).last() == 0x2Eu8,
        text_labels(labels_text(ls)) == ls,
{
    let n = ls.len() as int;
    let t = ls.take(n - 1);
    let l = ls[n - 1];
    lemma_labels_text_push(t, l);
    assert(ls.take(n) =~= ls);
    assert(t.push(l) =~= ls);
    let x = labels_text(t);
    let b = labels_text(ls);
    assert(b =~= x + l + seq![0x2Eu8]);
    assert(b.drop_last() =~= x + l);
    assert(l.last() == ls[n - 1][l.len() - 1]);
    assert(l.last() != 0x2Eu8);
    assert((x + l).last() == l.last());
    assert(trim_dots(b.drop_last()) == b.drop_last());
    assert(trim_dots(b) == x + l);
    lemma_split_labels_text(ls, n - 1);
    assert forall|j: int| 0 <= j < l.len() implies l[j] != 0x2Eu8 by {
        assert(ls[n - 1][j] != 0x2Eu8);
    }
    lemma_split_dots_append(x, l);
    assert(split_dots(x + l) =~= t.push(l));
}

/// Labels whose bytes are all allowed in a textual name, none of them a dot.
pub open spec fn labels_text_chars_ok(ls: Seq<Seq<u8>>) -> bool {
    forall|i: int, j: int|
        0 <= i < ls.len() && 0 <= j < ls[i].len() ==> name_text_byte_ok(#[trigger] ls[i][j])
            && ls[i][j] != 0x2Eu8
}

/// The text of labels whose bytes are all allowed holds only allowed bytes.
pub proof fn lemma_labels_text_ok(ls: Seq<Seq<u8>>)
    requires
        labels_text_chars_ok(ls),
    ensures
        name_text_ok(labels_text(ls)),
        labels_dot_free(ls),
    decreases ls.len(),
{
    if ls.len() > 0 {
        let rest = ls.drop_first();
        assert(labels_text_chars_ok(rest)) by {
            assert forall|i: int, j: int| 0 <= i < rest.len() && 0 <= j < rest[i].len() implies name_text_byte_ok(
                #[trigger] rest[i][j],
            ) && rest[i][j] != 0x2Eu8 by {
                assert(rest[i] == ls[i + 1]);
            }
        }
        lemma_labels_text_ok(rest);
        let t = labels_text(ls);
        let l0 = ls[0];
        assert(t == l0 + seq![0x2Eu8] + labels_text(rest));
        assert forall|k: int| 0 <= k < t.len() implies #[trigger] name_text_byte_ok(t[k]) by {
            if k < l0.len() {
                assert(t[k] == ls[0][k]);
            } else if k > l0.len() {
                assert(t[k] == labels_text(rest)[k - l0.len() - 1]);
            }
        }
    }
}

/// A name whose labels hold only letters, digits, `-` and `_`, written as
/// text and read back, is the same name.
pub proof fn law_name_text_roundtrip(w: Seq<u8>)
    requires
        name_wf(w),
        name_labels(w).len() > 0,
        labels_text_chars_ok(name_labels(w)),
    ensures
        name_from_text(labels_text(name_labels(w))) == Ok::<Seq<u8>, MdnsNameError>(w),
{
    let ls = name_labels(w);
    lemma_labels_text_ok(ls);
    lemma_wf_labels(w);
    assert(label_ok(ls[ls.len() - 1]));
    lemma_text_labels_of_text(ls);
    lemma_check_labels_none(ls);
    assert forall|k: int| 0 <= k < ls.len() implies 1 <= #[trigger] ls[k].len() <= 63 by {
        assert(label_ok(ls[k]));
    }
}

/// A single dot is valid UTF-8.
pub proof fn lemma_dot_valid_utf8()
    ensures
        valid_utf8(seq![0x2Eu8]),
{
    let d = seq![0x2Eu8];
    assert(vstd::utf8::pop_first_scalar(d) =~= Seq::<u8>::empty());
    reveal_with_fuel(valid_utf8, 2);
}

/// The UTF-8 bytes of each string of a list.
pub open spec fn strings_bytes(ss: Seq<String>) -> Seq<Seq<u8>> {
    ss.map_values(|s: String| encode_utf8(s@))
}

/// A byte that a textual name may hold: an ASCII letter or digit, `-`,
/// `_` or `.`. Every other character, ASCII or not, is encoded with at least
/// one byte outside this set.
pub open spec fn name_text_byte_ok(c: u8) -> bool {
    (0x30 <= c <= 0x39) || (0x41 <= c <= 0x5A) || (0x61 <= c <= 0x7A) || c == 0x2D || c == 0x5F
        || c == 0x2E
}

/// Every byte of a textual name's UTF-8 form is allowed.
pub open spec fn name_text_ok(b: Seq<u8>) -> bool {
    forall|i: int| 0 <= i < b.len() ==> #[trigger] name_text_byte_ok(b[i])
}

/// Reading a name from the UTF-8 bytes `b` of its textual form: its wire
/// bytes, or the error met first.
pub open spec fn name_from_text(b: Seq<u8>) -> Result<Seq<u8>, MdnsNameError> {
    if !(b.len() > 0 && b.last() == 0x2Eu8) {
        Err(MdnsNameError::MustEndWithDot)
    } else if !name_text_ok(b) {
        Err(MdnsNameError::InvalidCharacter)
    } else {
        match check_labels(text_labels(b)) {
            Some(e) => Err(e),
            None => Ok(labels_wire(text_labels(b))),
        }
    }
}

/// Whether every byte of `bytes` may stand in a textual name.
pub fn is_name_text(bytes: &[u8]) -> (r: bool)
    ensures
        r == name_text_ok(bytes@),
{
    let mut i: usize = 0;
    while i < bytes.len()
        invariant
            i <= bytes@.len(),
            forall|k: int| 0 <= k < i ==> #[trigger] name_text_byte_ok(bytes@[k]),
        decreases bytes@.len() - i,
    {
        let c = bytes[i];
        if !((0x30 <= c && c <= 0x39) || (0x41 <= c && c <= 0x5A) || (0x61 <= c && c <= 0x7A) || c
            == 0x2D || c == 0x5F || c == 0x2E) {
            assert(!name_text_byte_ok(bytes@[i as int]));
            return false;
        }
        i = i + 1;
    }
    true
}

/// Splits the textual form of a name into its labels: `None` unless the
/// text ends with a dot; otherwise the pieces between dots once the trailing
/// dots are dropped.
pub fn split_name_text(name: &str) -> (r: Option<Vec<String>>)
    ensures
        ({
            let b = encode_utf8(name@);
            &&& r is None <==> !(b.len() > 0 && b.last() == 0x2Eu8)
            &&& r matches Some(v) ==> strings_bytes(v@) == text_labels(b)
        }),
{
    let bytes = str_bytes(name);
    let ghost b = bytes@;
    proof {
        encode_utf8_valid_utf8(name@);
    }
    if bytes.len() == 0 || bytes[bytes.len() - 1] != 0x2E {
        return None;
    }
    let mut end: usize = bytes.len();
    while end > 0 && bytes[end - 1] == 0x2E
        invariant
            end <= b.len(),
            bytes@ == b,
            b == encode_utf8(name@),
            b.len() > 0 && b.last() == 0x2Eu8,
            forall|j: int| end <= j < b.len() ==> b[j] == 0x2Eu8,
        decreases end,
    {
        end = end - 1;
    }
    proof {
        lemma_trim_dots_take(b, end as int);
        let t = b.take(end as int);
        if end > 0 {
            assert(t.last() != 0x2Eu8);
        }
        assert(trim_dots(t) == t);
        assert(b.subrange(0, b.len() as int) =~= b);
        assert(b.take(0) =~= Seq::<u8>::empty());
        assert(split_dots(b.take(0)) =~= Seq::<Seq<u8>>::empty().push(b.subrange(0, 0)));
        assert(strings_bytes(Seq::<String>::empty()) =~= Seq::<Seq<u8>>::empty());
    }
    let ghost labels_all = text_labels(b);
    let mut labels: Vec<String> = Vec::new();
    let mut start: usize = 0;
    let mut k: usize = 0;
    while k < end
        invariant
            start <= k <= end <= b.len(),
            bytes@ == b,
            b == encode_utf8(name@),
            b.len() > 0 && b.last() == 0x2Eu8,
            labels_all == split_dots(b.take(end as int)),
            labels_all == text_labels(b),
            valid_utf8(b.subrange(start as int, b.len() as int)),
            split_dots(b.take(k as int)) == strings_bytes(labels@).push(b.subrange(start as int, k as int)),
        decreases end - k,
    {
        if bytes[k] == 0x2E {
            let ghost piece = b.subrange(start as int, k as int);
            proof {
                assert(b.take(k + 1).drop_last() =~= b.take(k as int));
                assert(split_dots(b.take(k + 1)) == split_dots(b.take(k as int)).push(Seq::empty()));
                let rem = b.subrange(start as int, b.len() as int);
                lemma_valid_utf8_cut_at_ascii(rem, k - start);
                assert(rem.subrange(0, k - start) =~= piece);
                assert(rem.subrange(k - start + 1, rem.len() as int) =~= b.subrange(k + 1, b.len() as int));
            }
            let label = string_from_utf8(&bytes[start..k]);
            let ghost before = labels@;
            labels.push(label);
            proof {
                assert(strings_bytes(labels@) =~= strings_bytes(before).push(piece));
                assert(b.subrange((k + 1) as int, (k + 1) as int) =~= Seq::<u8>::empty());
            }
            start = k + 1;
        } else {
            proof {
                assert(b.take(k + 1).drop_last() =~= b.take(k as int));
                let p = split_dots(b.take(k as int));
                lemma_split_dots_len(b.take(k as int));
                assert(b.subrange(start as int, k + 1) =~= b.subrange(start as int, k as int).push(b[k as int]));
                assert(split_dots(b.take(k + 1)) == p.update(p.len() - 1, p.last().push(b[k as int])));
                assert(strings_bytes(labels@).push(b.subrange(start as int, k + 1)) =~= p.update(p.len() - 1, p.last().push(b[k as int])));
            }
        }
        k = k + 1;
    }
    let ghost piece = b.subrange(start as int, end as int);
    proof {
        assert(labels_all == strings_bytes(labels@).push(piece));
        let rem = b.subrange(start as int, b.len() as int);
        if end < b.len() {
            lemma_valid_utf8_cut_at_ascii(rem, end - start);
            assert(rem.subrange(0, end - start) =~= piece);
        } else {
            assert(rem =~= piece);
        }
    }
    let label = string_from_utf8(&bytes[start..end]);
    let ghost before = labels@;
    labels.push(label);
    proof {
        assert(strings_bytes(labels@) =~= strings_bytes(before).push(piece));
    }
    Some(labels)
}

/// An mDNS name, held in wire format: each label's length and bytes, then a
/// zero byte.
///
/// Every label holds 1 to 63 bytes of valid UTF-8.
#[derive(PartialEq, Eq, Hash, Debug)]
pub struct MdnsName(Vec<u8>);

impl Clone for MdnsName {
    fn clone(&self) -> (r: Self)
        ensures
            r@ == self@,
    {
        proof {
            use_type_invariant(self);
        }
        let bytes = self.0.clone();
        assert(bytes@ =~= self.0@);
        MdnsName(bytes)
    }
}

impl View for MdnsName {
    type V = Seq<u8>;

    closed spec fn view(&self) -> Seq<u8> {
        self.0@
    }
}

impl MdnsName {
    /// Maximum length of an individual label.
    pub const MAX_LABEL_LEN: usize = 63;

    #[verifier::type_invariant]
    spec fn wf(self) -> bool {
        name_wf(self.0@)
    }

    /// Returns an empty [`MdnsName`]: no labels, only the zero byte.
    pub fn empty() -> (r: Self)
        ensures
            r@ == labels_wire(Seq::empty()),
            r@ == seq![0u8],
    {
        let mut v: Vec<u8> = Vec::new();
        v.push(0);
        proof {
            assert(labels_wire(Seq::<Seq<u8>>::empty()) =~= seq![0u8]);
            lemma_wire_wf(Seq::empty());
        }
        MdnsName(v)
    }

    /// Creates a new [`MdnsName`] from its labels.
    ///
    /// Fails with `LabelTooShort` or `LabelTooLong` for the first label that
    /// is empty or longer than 63 bytes.
    pub fn new(labels: &[String]) -> (r: Result<Self, MdnsNameError>)
        ensures
            match check_labels(strings_bytes(labels@)) {
                Some(e) => r == Err::<Self, MdnsNameError>(e),
                None => r matches Ok(n) && n@ == labels_wire(strings_bytes(labels@)),
            },
    {
        let ghost lb = strings_bytes(labels@);
        let count = labels.len();
        if count == 0 {
            proof {
                assert(lb =~= Seq::<Seq<u8>>::empty());
            }
            return Ok(Self::empty());
        }
        let mut i: usize = 0;
        while i < count
            invariant
                i <= count,
                count == labels@.len(),
                lb == strings_bytes(labels@),
                forall|k: int| 0 <= k < i ==> 1 <= #[trigger] lb[k].len() <= 63,
            decreases count - i,
        {
            let label_size = string_bytes(&labels[i]).len();
            if label_size == 0 || label_size > Self::MAX_LABEL_LEN {
                proof {
                    lemma_check_labels_first_bad(lb, i as int);
                }
                if label_size == 0 {
                    return Err(MdnsNameError::LabelTooShort);
                } else {
                    return Err(MdnsNameError::LabelTooLong);
                }
            }
            i = i + 1;
        }
        proof {
            lemma_check_labels_none(lb);
        }
        let mut bytes: Vec<u8> = Vec::new();
        let mut i: usize = 0;
        while i < count
            invariant
                i <= count,
                count == labels@.len(),
                lb == strings_bytes(labels@),
                forall|k: int| 0 <= k < count ==> 1 <= #[trigger] lb[k].len() <= 63,
                bytes@ == labels_body(lb.take(i as int)),
            decreases count - i,
        {
            let b = string_bytes(&labels[i]);
            assert(b@ == lb[i as int]);
            bytes.push(b.len() as u8);
            extend_bytes(&mut bytes, b);
            proof {
                lemma_labels_body_push(lb.take(i as int), lb[i as int]);
                assert(lb.take(i + 1) =~= lb.take(i as int).push(lb[i as int]));
                assert(bytes@ =~= labels_body(lb.take(i as int)) + label_wire(lb[i as int]));
            }
            i = i + 1;
        }
        assert(lb.take(count as int) =~= lb);
        bytes.push(0);
        proof {
            assert forall|k: int| 0 <= k < lb.len() implies #[trigger] label_ok(lb[k]) by {
                encode_utf8_valid_utf8(labels@[k]@);
            }
            assert(bytes@ =~= labels_wire(lb));
            lemma_wire_wf(lb);
        }
        Ok(MdnsName(bytes))
    }

    /// Reads a wire-format name from `data` at `*offset`.
    ///
    /// When the labels cannot be read, the error is returned and the offset
    /// is left unchanged; once they are read, the offset moves just past the
    /// zero byte, and a label longer than 63 bytes is then reported as
    /// `LabelTooLong`.
    pub fn from_wire_format(data: &[u8], offset: &mut usize) -> (r: Result<Self, MdnsNameError>)
        requires
            *old(offset) <= data@.len(),
        ensures
            match scan_labels(data@, *old(offset) as int) {
                Err(e) => r == Err::<Self, MdnsNameError>(e) && *final(offset) == *old(offset),
                Ok((ls, t)) => *final(offset) == t + 1 && match check_labels(ls) {
                    Some(e) => r == Err::<Self, MdnsNameError>(e),
                    None => r matches Ok(n) && n@ == labels_wire(ls),
                },
            },
            match parse_name(data@, *old(offset) as int) {
                Ok((w, end)) => r matches Ok(n) && n@ == w && *final(offset) == end,
                Err(e) => r == Err::<Self, MdnsNameError>(e),
            },
            r matches Ok(n) ==> n@ == data@.subrange(*old(offset) as int, *final(offset) as int),
            *old(offset) <= *final(offset) <= data@.len(),
    {
        let ghost i0 = *offset as int;
        let mut labels: Vec<String> = Vec::new();
        let mut i: usize = *offset;
        while i < data.len() && data[i] != 0
            invariant
                i0 <= i <= data@.len(),
                *offset == *old(offset),
                i0 == *old(offset) as int,
                scan_labels(data@, i0) == prepend_scan(strings_bytes(labels@), scan_labels(data@, i as int)),
            decreases data@.len() - i,
        {
            let len: usize = data[i] as usize;
            i = i + 1;
            if len > data.len() - i {
                assert(scan_labels(data@, i - 1) == Err::<(Seq<Seq<u8>>, int), MdnsNameError>(
                    MdnsNameError::InvalidLabelLength { length: len, max_length: (data.len() - i) as usize },
                ));
                let e = MdnsNameError::InvalidLabelLength { length: len, max_length: data.len() - i };
                assert(scan_labels(data@, i0) == Err::<(Seq<Seq<u8>>, int), MdnsNameError>(e));
                return Err(e);
            }
            let piece = &data[i..(i + len)];
            if !is_valid_utf8(piece) {
                assert(scan_labels(data@, i - 1) == Err::<(Seq<Seq<u8>>, int), MdnsNameError>(
                    MdnsNameError::InvalidUtf8Label,
                ));
                return Err(MdnsNameError::InvalidUtf8Label);
            }
            let label = string_from_utf8(piece);
            let ghost before = labels@;
            labels.push(label);
            proof {
                assert(strings_bytes(labels@) =~= strings_bytes(before).push(piece@));
                match scan_labels(data@, (i + len) as int) {
                    Ok((ls, t)) => {
                        assert(strings_bytes(before) + (seq![piece@] + ls) =~= strings_bytes(before).push(piece@) + ls);
                    },
                    Err(e) => {},
                }
            }
            i = i + len;
        }
        if i == data.len() || data[i] != 0 {
            return Err(MdnsNameError::InvalidEndOfLabels);
        }
        proof {
            assert(strings_bytes(labels@) + Seq::<Seq<u8>>::empty() =~= strings_bytes(labels@));
            lemma_scan_result(data@, i0);
        }
        *offset = i + 1;
        MdnsName::new(labels.as_slice())
    }

    /// Creates a new [`MdnsName`] from its textual form, such as
    /// `instance._http._tcp.local.`.
    ///
    /// The text must end with a dot and hold only ASCII letters and digits,
    /// `-`, `_` and `.`; the trailing dots are dropped and the rest is split
    /// at each dot into labels, each of which must hold 1 to 63 bytes.
    pub fn from_name(name: &str) -> (r: Result<Self, MdnsNameError>)
        ensures
            match name_from_text(encode_utf8(name@)) {
                Ok(w) => r matches Ok(n) && n@ == w,
                Err(e) => r == Err::<Self, MdnsNameError>(e),
            },
    {
        let bytes = str_bytes(name);
        if bytes.len() == 0 || bytes[bytes.len() - 1] != 0x2E {
            return Err(MdnsNameError::MustEndWithDot);
        }
        if !is_name_text(bytes) {
            return Err(MdnsNameError::InvalidCharacter);
        }
        match split_name_text(name) {
            None => Err(MdnsNameError::MustEndWithDot),
            Some(labels) => MdnsName::new(labels.as_slice()),
        }
    }

    /// The textual form of the name: each label followed by a dot, such as
    /// `instance._http._tcp.local.`.
    pub fn to_string(&self) -> (r: String)
        ensures
            encode_utf8(r@) == labels_text(name_labels(self@)),
    {
        proof {
            use_type_invariant(self);
            lemma_wf_labels(self.0@);
        }
        let ghost w = self.0@;
        let ghost ls = name_labels(w);
        let mut out: Vec<u8> = Vec::new();
        let mut i: usize = 0;
        let ghost mut n: int = 0;
        proof {
            assert(ls.skip(0) =~= ls);
            assert(ls.take(0) =~= Seq::<Seq<u8>>::empty());
            assert(out@ =~= labels_text(ls.take(0)));
        }
        while self.0[i] != 0
            invariant
                w == self.0@,
                ls == name_labels(w),
                labels_ok(ls),
                0 <= n <= ls.len(),
                scan_labels(w, i as int) == Ok::<(Seq<Seq<u8>>, int), MdnsNameError>(
                    (ls.skip(n), w.len() - 1),
                ),
                out@ == labels_text(ls.take(n)),
                valid_utf8(out@),
            decreases w.len() - i,
        {
            let len: usize = self.0[i] as usize;
            assert(i + 1 + len <= w.len()) by {
                assert(scan_labels(w, i as int) is Ok);
            }
            assert(w.len() == self.0.len());
            let piece = &self.0.as_slice()[(i + 1)..(i + 1 + len)];
            proof {
                match scan_labels(w, (i + 1 + len) as int) {
                    Ok((ls2, t)) => {
                        assert(seq![piece@] + ls2 == ls.skip(n));
                        assert(ls2 =~= (seq![piece@] + ls2).drop_first());
                    },
                    Err(_) => {
                        assert(false);
                    },
                }
                assert(ls.skip(n).len() > 0);
                assert(ls.skip(n)[0] == piece@);
                assert(ls.skip(n).drop_first() =~= ls.skip(n + 1));
                assert(ls[n] == piece@);
                assert(label_ok(ls[n]));
                lemma_labels_text_push(ls.take(n), ls[n]);
                assert(ls.take(n + 1) =~= ls.take(n).push(ls[n]));
                valid_utf8_concat(out@, piece@);
                lemma_dot_valid_utf8();
                valid_utf8_concat(out@ + piece@, seq![0x2Eu8]);
            }
            extend_bytes(&mut out, piece);
            out.push(0x2E);
            proof {
                assert(out@ =~= labels_text(ls.take(n)) + ls[n] + seq![0x2Eu8]);
                n = n + 1;
            }
            i = i + 1 + len;
        }
        proof {
            assert(ls.skip(n).len() == 0);
            assert(ls.take(n) =~= ls);
        }
        string_from_utf8(out.as_slice())
    }

    /// The labels of the name, in order.
    pub fn labels(&self) -> (r: Vec<String>)
        ensures
            strings_bytes(r@) == name_labels(self@),
    {
        proof {
            use_type_invariant(self);
            lemma_wf_labels(self.0@);
        }
        let ghost w = self.0@;
        let ghost ls = name_labels(w);
        let mut out: Vec<String> = Vec::new();
        let mut i: usize = 0;
        let ghost mut n: int = 0;
        proof {
            assert(ls.skip(0) =~= ls);
            assert(strings_bytes(out@) =~= ls.take(0));
        }
        while self.0[i] != 0
            invariant
                w == self.0@,
                ls == name_labels(w),
                labels_ok(ls),
                0 <= n <= ls.len(),
                scan_labels(w, i as int) == Ok::<(Seq<Seq<u8>>, int), MdnsNameError>(
                    (ls.skip(n), w.len() - 1),
                ),
                strings_bytes(out@) == ls.take(n),
            decreases w.len() - i,
        {
            let len: usize = self.0[i] as usize;
            assert(i + 1 + len <= w.len()) by {
                assert(scan_labels(w, i as int) is Ok);
            }
            assert(w.len() == self.0.len());
            let piece = &self.0.as_slice()[(i + 1)..(i + 1 + len)];
            proof {
                match scan_labels(w, (i + 1 + len) as int) {
                    Ok((ls2, t)) => {
                        assert(seq![piece@] + ls2 == ls.skip(n));
                        assert(ls2 =~= (seq![piece@] + ls2).drop_first());
                    },
                    Err(_) => {
                        assert(false);
                    },
                }
                assert(ls.skip(n).len() > 0);
                assert(ls.skip(n)[0] == piece@);
                assert(ls.skip(n).drop_first() =~= ls.skip(n + 1));
                assert(ls[n] == piece@);
                assert(label_ok(ls[n]));
            }
            let label = string_from_utf8(piece);
            let ghost before = out@;
            out.push(label);
            proof {
                assert(strings_bytes(out@) =~= strings_bytes(before).push(piece@));
                assert(ls.take(n + 1) =~= ls.take(n).push(ls[n]));
                n = n + 1;
            }
            i = i + 1 + len;
        }
        proof {
            assert(ls.skip(n).len() == 0);
            assert(ls.take(n) =~= ls);
        }
        out
    }

    /// Whether two names have the same wire bytes.
    pub fn same_name(&self, other: &MdnsName) -> (r: bool)
        ensures
            r == (self@ == other@),
    {
        if self.0.len() != other.0.len() {
            return false;
        }
        let mut i: usize = 0;
        while i < self.0.len()
            invariant
                self.0@.len() == other.0@.len(),
                i <= self.0@.len(),
                forall|k: int| 0 <= k < i ==> self.0@[k] == other.0@[k],
            decreases self.0@.len() - i,
        {
            if self.0[i] != other.0[i] {
                return false;
            }
            i = i + 1;
        }
        assert(self.0@ =~= other.0@);
        true
    }

    /// The name in wire format.
    pub fn to_wire_format(&self) -> (r: &[u8])
        ensures
            r@ == self@,
            name_wf(self@),
    {
        proof {
            use_type_invariant(self);
        }
        self.0.as_slice()
    }
}

impl TryFrom<&str> for MdnsName {
    type Error = MdnsNameError;

    /// Same as [`MdnsName::from_name`].
    fn try_from(name: &str) -> (r: Result<Self, MdnsNameError>)
        ensures
            match name_from_text(encode_utf8(name@)) {
                Ok(w) => r matches Ok(n) && n@ == w,
                Err(e) => r == Err::<Self, MdnsNameError>(e),
            },
    {
        MdnsName::from_name(name)
    }
}

impl vstd::std_specs::convert::TryFromSpecImpl<&str> for MdnsName {
    open spec fn obeys_try_from_spec() -> bool {
        false
    }

    open spec fn try_from_spec(name: &str) -> Result<Self, MdnsNameError> {
        vstd::pervasive::arbitrary()
    }
}

impl TryFrom<String> for MdnsName {
    type Error = MdnsNameError;

    /// Same as [`MdnsName::from_name`].
    fn try_from(name: String) -> (r: Result<Self, MdnsNameError>)
        ensures
            match name_from_text(encode_utf8(name@)) {
                Ok(w) => r matches Ok(n) && n@ == w,
                Err(e) => r == Err::<Self, MdnsNameError>(e),
            },
    {
        MdnsName::from_name(name.as_str())
    }
}

impl vstd::std_specs::convert::TryFromSpecImpl<String> for MdnsName {
    open spec fn obeys_try_from_spec() -> bool {
        false
    }

    open spec fn try_from_spec(name: String) -> Result<Self, MdnsNameError> {
        vstd::pervasive::arbitrary()
    }
}

impl TryFrom<Vec<String>> for MdnsName {
    type Error = MdnsNameError;

    /// Same as [`MdnsName::new`].
    fn try_from(labels: Vec<String>) -> (r: Result<Self, MdnsNameError>)
        ensures
            match check_labels(strings_bytes(labels@)) {
                Some(e) => r == Err::<Self, MdnsNameError>(e),
                None => r matches Ok(n) && n@ == labels_wire(strings_bytes(labels@)),
            },
    {
        MdnsName::new(labels.as_slice())
    }
}

impl vstd::std_specs::convert::TryFromSpecImpl<Vec<String>> for MdnsName {
    open spec fn obeys_try_from_spec() -> bool {
        false
    }

    open spec fn try_from_spec(labels: Vec<String>) -> Result<Self, MdnsNameError> {
        vstd::pervasive::arbitrary()
    }
}

impl TryFrom<&[String]> for MdnsName {
    type Error = MdnsNameError;

    /// Same as [`MdnsName::new`].
    fn try_from(labels: &[String]) -> (r: Result<Self, MdnsNameError>)
        ensures
            match check_labels(strings_bytes(labels@)) {
                Some(e) => r == Err::<Self, MdnsNameError>(e),
                None => r matches Ok(n) && n@ == labels_wire(strings_bytes(labels@)),
            },
    {
        MdnsName::new(labels)
    }
}

impl vstd::std_specs::convert::TryFromSpecImpl<&[String]> for MdnsName {
    open spec fn obeys_try_from_spec() -> bool {
        false
    }

    open spec fn try_from_spec(labels: &[String]) -> Result<Self, MdnsNameError> {
        vstd::pervasive::arbitrary()
    }
}

impl From<MdnsName> for Vec<String> {
    /// The labels of the name, in order.
    fn from(name: MdnsName) -> (r: Vec<String>)
        ensures
            strings_bytes(r@) == name_labels(name@),
    {
        name.labels()
    }
}

impl vstd::std_specs::convert::FromSpecImpl<MdnsName> for Vec<String> {
    open spec fn obeys_from_spec() -> bool {
        false
    }

    open spec fn from_spec(name: MdnsName) -> Self {
        vstd::pervasive::arbitrary()
    }
}

impl core::ops::Deref for MdnsName {
    type Target = [u8];

    /// The name in wire format.
    fn deref(&self) -> (r: &[u8])
        ensures
            r@ == self@,
    {
        self.0.as_slice()
    }
}

} // verus!
