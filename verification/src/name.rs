//! Domain names on the wire: a run of length-prefixed labels that ends with
//! the zero-length root label.

use vstd::prelude::*;
use vstd::slice::slice_subrange;

verus! {

/// The byte that separates the labels of a written name.
pub const SEPARATOR: u8 = 0x2e;

/// The longest label that a length byte can announce.
pub const MAX_LABEL_LEN: usize = 63;

/// Why a written name cannot be put on the wire.
#[derive(Debug, Clone, Copy, PartialEq, Eq, Structural)]
pub enum NameError {
    /// A byte of the name lies outside ASCII.
    NonAscii,
    /// A label is longer than `MAX_LABEL_LEN` bytes.
    LabelTooLong,
}

/// What an error says in words.
pub open spec fn error_text(e: NameError) -> Seq<char> {
    match e {
        NameError::NonAscii => "Service name is not ASCII"@,
        NameError::LabelTooLong => "Service name has a label too long"@,
    }
}

impl NameError {
    /// The error in words.
    pub fn message(&self) -> (text: &'static str)
        ensures
            text@ == error_text(*self),
    {
        match self {
            NameError::NonAscii => "Service name is not ASCII",
            NameError::LabelTooLong => "Service name has a label too long",
        }
    }
}

/// Where the first label of `s` ends: the index of the first separator, or
/// the length of `s` where it holds none.
pub open spec fn label_end(s: Seq<u8>) -> int
    decreases s.len(),
{
    if s.len() == 0 || s[0] == SEPARATOR {
        0
    } else {
        1 + label_end(s.drop_first())
    }
}

/// The labels of a written name: the pieces between its separators, in
/// order, none trimmed and none dropped. A name with `k` separators has
/// `k + 1` labels, some of which may be empty.
pub open spec fn labels(s: Seq<u8>) -> Seq<Seq<u8>>
    decreases s.len(),
{
    let k = label_end(s);
    if 0 <= k < s.len() {
        seq![s.take(k)] + labels(s.skip(k + 1))
    } else {
        seq![s]
    }
}

/// One label on the wire: its length in one byte, then its bytes.
pub open spec fn encode_label(label: Seq<u8>) -> Seq<u8> {
    seq![label.len() as u8] + label
}

/// The labels of `ls` on the wire, one after the other.
pub open spec fn encode_labels(ls: Seq<Seq<u8>>) -> Seq<u8>
    decreases ls.len(),
{
    if ls.len() == 0 {
        Seq::empty()
    } else {
        encode_label(ls.first()) + encode_labels(ls.drop_first())
    }
}

/// Whether the written name ends with a separator. Such a name is fully
/// qualified: the empty label after its last separator is the root.
pub open spec fn ends_in_root(s: Seq<u8>) -> bool {
    s.len() > 0 && s.last() == SEPARATOR
}

/// A written name on the wire: every label with its length before it, and
/// the zero-length root label at the end. In a name that ends with a
/// separator the last label is that root label, and no second one follows;
/// after any other name the root label is added. Empty labels elsewhere
/// are written like any other label.
pub open spec fn qname(s: Seq<u8>) -> Seq<u8> {
    if ends_in_root(s) {
        encode_labels(labels(s))
    } else {
        encode_labels(labels(s)) + seq![0u8]
    }
}

/// Whether every label of the written name fits a length byte.
pub open spec fn labels_fit(s: Seq<u8>) -> bool {
    forall|i: int| 0 <= i < labels(s).len() ==> (#[trigger] labels(s)[i]).len() <= MAX_LABEL_LEN
}

/// Whether every byte of `s` is an ASCII byte.
pub open spec fn is_ascii_bytes(s: Seq<u8>) -> bool {
    forall|i: int| 0 <= i < s.len() ==> #[trigger] s[i] < 0x80
}

/// The verdict on a written name: a byte outside ASCII is reported before a
/// label that is too long, and a name with neither is accepted. Empty
/// labels are accepted wherever they stand.
pub open spec fn name_verdict(s: Seq<u8>) -> Result<(), NameError> {
    if !is_ascii_bytes(s) {
        Err(NameError::NonAscii)
    } else if !labels_fit(s) {
        Err(NameError::LabelTooLong)
    } else {
        Ok(())
    }
}

/// The first label ends at the first separator and holds none itself.
pub proof fn lemma_label_end(s: Seq<u8>)
    ensures
        0 <= label_end(s) <= s.len(),
        forall|j: int| 0 <= j < label_end(s) ==> s[j] != SEPARATOR,
        label_end(s) < s.len() ==> s[label_end(s)] == SEPARATOR,
    decreases s.len(),
{
    if s.len() != 0 && s[0] != SEPARATOR {
        let t = s.drop_first();
        lemma_label_end(t);
        assert forall|j: int| 0 <= j < label_end(s) implies s[j] != SEPARATOR by {
            if j > 0 {
                assert(s[j] == t[j - 1]);
            }
        }
    }
}

/// An index that no separator precedes, and at which a separator or the
/// end of `s` stands, is where the first label ends.
pub proof fn lemma_label_end_at(s: Seq<u8>, k: int)
    requires
        0 <= k <= s.len(),
        forall|j: int| 0 <= j < k ==> s[j] != SEPARATOR,
        k == s.len() || s[k] == SEPARATOR,
    ensures
        label_end(s) == k,
    decreases k,
{
    if k > 0 {
        let t = s.drop_first();
        assert forall|j: int| 0 <= j < k - 1 implies t[j] != SEPARATOR by {}
        lemma_label_end_at(t, k - 1);
    }
}

/// A name with its first separator at `k` has the bytes before `k` as its
/// first label and the labels of what follows `k` as the others. Its
/// labels on the wire, and whether they fit, follow from the two parts.
pub proof fn lemma_labels_split(s: Seq<u8>, k: int)
    requires
        0 <= k < s.len(),
        label_end(s) == k,
    ensures
        labels(s) == seq![s.take(k)] + labels(s.skip(k + 1)),
        encode_labels(labels(s)) == encode_label(s.take(k)) + encode_labels(
            labels(s.skip(k + 1)),
        ),
        labels_fit(s) <==> k <= MAX_LABEL_LEN && labels_fit(s.skip(k + 1)),
{
    let rest = s.skip(k + 1);
    let ls = labels(s);
    let tail = labels(rest);
    assert(ls.drop_first() =~= tail);
    if labels_fit(s) {
        assert forall|i: int| 0 <= i < tail.len() implies (#[trigger] tail[i]).len()
            <= MAX_LABEL_LEN by {
            assert(ls[i + 1] == tail[i]);
        }
    }
    if k <= MAX_LABEL_LEN && labels_fit(rest) {
        assert forall|i: int| 0 <= i < ls.len() implies (#[trigger] ls[i]).len()
            <= MAX_LABEL_LEN by {
            if i > 0 {
                assert(ls[i] == tail[i - 1]);
            }
        }
    }
}

/// A name without a separator is a single label.
pub proof fn lemma_labels_single(s: Seq<u8>)
    requires
        label_end(s) == s.len(),
    ensures
        labels(s) == seq![s],
        encode_labels(labels(s)) == encode_label(s),
        labels_fit(s) <==> s.len() <= MAX_LABEL_LEN,
{
    let ls = labels(s);
    assert(encode_labels(ls.drop_first()) =~= Seq::<u8>::empty());
    if s.len() <= MAX_LABEL_LEN {
        assert forall|i: int| 0 <= i < ls.len() implies (#[trigger] ls[i]).len()
            <= MAX_LABEL_LEN by {}
    }
    if labels_fit(s) {
        assert(ls[0].len() <= MAX_LABEL_LEN);
    }
}

/// Appends one label to `out`: its length in one byte, then its bytes.
pub fn append_label(out: &mut Vec<u8>, label: &[u8])
    requires
        label@.len() <= MAX_LABEL_LEN,
    ensures
        final(out)@ == old(out)@ + encode_label(label@),
{
    out.push(label.len() as u8);
    let mut i: usize = 0;
    while i < label.len()
        invariant
            i <= label@.len(),
            out@ == old(out)@ + seq![label@.len() as u8] + label@.take(i as int),
        decreases label@.len() - i,
    {
        out.push(label[i]);
        i += 1;
    }
}

/// Appends the written name to `out` in wire form: each label between the
/// separators of `name` with its length before it, and the zero-length
/// root label at the end, which a name that ends with a separator already
/// holds.
pub fn append_qname(out: &mut Vec<u8>, name: &[u8])
    requires
        labels_fit(name@),
    ensures
        final(out)@ == old(out)@ + qname(name@),
{
    let n: usize = name.len();
    let mut start: usize = 0;
    let mut i: usize = 0;
    assert(name@.skip(0) =~= name@);
    while i < n
        invariant
            n == name@.len(),
            start <= i <= n,
            forall|j: int| start <= j < i ==> name@[j] != SEPARATOR,
            labels_fit(name@.skip(start as int)),
            out@ + encode_labels(labels(name@.skip(start as int))) == old(out)@ + encode_labels(
                labels(name@),
            ),
        decreases n - i,
    {
        if name[i] == SEPARATOR {
            let ghost rest = name@.skip(start as int);
            let ghost before = out@;
            proof {
                lemma_label_end_at(rest, i - start);
                lemma_labels_split(rest, i - start);
                assert(rest.skip(i - start + 1) =~= name@.skip(i + 1));
            }
            append_label(out, slice_subrange(name, start, i));
            start = i + 1;
            assert(out@ + encode_labels(labels(name@.skip(start as int))) =~= before
                + encode_labels(labels(rest)));
        }
        i += 1;
    }
    proof {
        let rest = name@.skip(start as int);
        lemma_label_end_at(rest, n - start);
        lemma_labels_single(rest);
    }
    append_label(out, slice_subrange(name, start, n));
    if n == 0 || name[n - 1] != SEPARATOR {
        out.push(0);
    }
}

/// Says whether the written name can be put on the wire, and if not, why.
pub fn check_name(name: &[u8]) -> (verdict: Result<(), NameError>)
    ensures
        verdict == name_verdict(name@),
{
    let n: usize = name.len();
    let mut a: usize = 0;
    while a < n
        invariant
            n == name@.len(),
            a <= n,
            forall|j: int| 0 <= j < a ==> #[trigger] name@[j] < 0x80,
        decreases n - a,
    {
        if name[a] >= 0x80 {
            return Err(NameError::NonAscii);
        }
        a += 1;
    }
    let mut start: usize = 0;
    let mut i: usize = 0;
    assert(name@.skip(0) =~= name@);
    while i < n
        invariant
            n == name@.len(),
            start <= i <= n,
            is_ascii_bytes(name@),
            forall|j: int| start <= j < i ==> name@[j] != SEPARATOR,
            labels_fit(name@) <==> labels_fit(name@.skip(start as int)),
        decreases n - i,
    {
        if name[i] == SEPARATOR {
            proof {
                let rest = name@.skip(start as int);
                lemma_label_end_at(rest, i - start);
                lemma_labels_split(rest, i - start);
                assert(rest.skip(i - start + 1) =~= name@.skip(i + 1));
            }
            if i - start > MAX_LABEL_LEN {
                return Err(NameError::LabelTooLong);
            }
            start = i + 1;
        }
        i += 1;
    }
    proof {
        let rest = name@.skip(start as int);
        lemma_label_end_at(rest, n - start);
        lemma_labels_single(rest);
    }
    if n - start > MAX_LABEL_LEN {
        Err(NameError::LabelTooLong)
    } else {
        Ok(())
    }
}

/// Appends the written name to `out` in wire form where `check_name`
/// accepts it, and otherwise leaves `out` as it was and says why.
pub fn try_append_qname(out: &mut Vec<u8>, name: &[u8]) -> (verdict: Result<(), NameError>)
    ensures
        verdict == name_verdict(name@),
        verdict is Ok ==> final(out)@ == old(out)@ + qname(name@),
        verdict is Err ==> final(out)@ == old(out)@,
{
    match check_name(name) {
        Ok(()) => {
            append_qname(out, name);
            Ok(())
        },
        Err(e) => Err(e),
    }
}

/// The labels of a name on the wire take one byte more than the name has
/// bytes, since each separator gives way to a length byte, and they end
/// with a zero byte exactly where the last label is empty.
pub proof fn lemma_encode_labels_len(s: Seq<u8>)
    ensures
        encode_labels(labels(s)).len() == s.len() + 1,
        labels(s).len() >= 1,
        labels(s).last().len() == 0 <==> (s.len() == 0 || s.last() == SEPARATOR),
        labels(s).last().len() == 0 ==> encode_labels(labels(s)).last() == 0,
    decreases s.len(),
{
    let k = label_end(s);
    lemma_label_end(s);
    if k < s.len() {
        lemma_labels_split(s, k);
        lemma_encode_labels_len(s.skip(k + 1));
    } else {
        lemma_labels_single(s);
    }
}

/// The length of a name on the wire, and its last byte. A name that ends
/// with a separator takes one byte more than it has bytes; any other takes
/// two more. The encoding always ends with the zero byte of the root label.
pub proof fn lemma_qname_len(s: Seq<u8>)
    ensures
        qname(s).len() == s.len() + if ends_in_root(s) { 1int } else { 2int },
        qname(s).last() == 0,
{
    lemma_encode_labels_len(s);
}

/// Labels on the wire follow one another: a further label at the end of
/// `ls` adds its own bytes at the end of the encoding.
pub proof fn lemma_encode_labels_push(ls: Seq<Seq<u8>>, label: Seq<u8>)
    ensures
        encode_labels(ls.push(label)) == encode_labels(ls) + encode_label(label),
    decreases ls.len(),
{
    let all = ls.push(label);
    if ls.len() == 0 {
        assert(all.drop_first() =~= ls);
    } else {
        lemma_encode_labels_push(ls.drop_first(), label);
        assert(all.drop_first() =~= ls.drop_first().push(label));
    }
}

/// A separator at the end of a name adds one empty label after the others.
pub proof fn lemma_labels_push_separator(s: Seq<u8>)
    ensures
        labels(s.push(SEPARATOR)) == labels(s).push(Seq::<u8>::empty()),
    decreases s.len(),
{
    let t = s.push(SEPARATOR);
    let k = label_end(s);
    lemma_label_end(s);
    assert forall|j: int| 0 <= j < k implies t[j] != SEPARATOR by {}
    lemma_label_end_at(t, k);
    lemma_labels_split(t, k);
    if k < s.len() {
        lemma_labels_split(s, k);
        lemma_labels_push_separator(s.skip(k + 1));
        assert(t.take(k) =~= s.take(k));
        assert(t.skip(k + 1) =~= s.skip(k + 1).push(SEPARATOR));
    } else {
        lemma_labels_single(s);
        assert(t.take(k) =~= s);
        assert(t.skip(k + 1) =~= Seq::<u8>::empty());
        lemma_label_end_at(Seq::<u8>::empty(), 0);
        lemma_labels_single(Seq::<u8>::empty());
    }
}

/// A name and the same name with the root written out, as one separator at
/// its end, are the same on the wire, unless the name ends with a
/// separator already: a second one then adds an empty label.
pub proof fn lemma_qname_rooted(s: Seq<u8>)
    ensures
        !ends_in_root(s) ==> qname(s.push(SEPARATOR)) == qname(s),
        ends_in_root(s) ==> qname(s.push(SEPARATOR)) == qname(s) + seq![0u8],
{
    lemma_labels_push_separator(s);
    lemma_encode_labels_push(labels(s), Seq::<u8>::empty());
}

} // verus!
