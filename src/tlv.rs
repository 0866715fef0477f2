//! Tag-length-value records: BER-style tags of one or two bytes, lengths of
//! one byte or of a count byte followed by big-endian length bytes.
use vstd::prelude::*;
use vstd::slice::slice_subrange;

verus! {

/// The tag at the start of `s` and the number of bytes it takes, if they are there.
/// A first byte whose low five bits are all set announces a second tag byte.
pub open spec fn spec_tag(s: Seq<u8>) -> Option<(u16, nat)> {
    if s.len() == 0 {
        None
    } else if s[0] & 0x1f != 0x1f {
        Some((s[0] as u16, 1))
    } else if s.len() < 2 {
        None
    } else {
        Some((((s[0] as u16) << 8u16) | (s[1] as u16), 2))
    }
}

/// The bytes of `s` read as one big-endian unsigned number.
pub open spec fn be_value(s: Seq<u8>) -> nat
    decreases s.len(),
{
    if s.len() == 0 {
        0
    } else {
        be_value(s.drop_last()) * 256 + s.last() as nat
    }
}

/// The length field at the start of `s`: its value and the number of bytes it takes.
/// A first byte up to 0x80 is the length itself; a larger one gives, less 0x80,
/// the count of big-endian length bytes that follow it.
pub open spec fn spec_len(s: Seq<u8>) -> Option<(nat, nat)> {
    if s.len() == 0 {
        None
    } else if s[0] <= 0x80 {
        Some((s[0] as nat, 1))
    } else {
        let count = (s[0] - 0x80) as nat;
        if s.len() < 1 + count {
            None
        } else {
            Some((be_value(s.subrange(1, 1 + count as int)), 1 + count))
        }
    }
}

/// The record header at the start of `s`: its tag, where its payload starts
/// and where it ends, counted from the start of `s`.
pub open spec fn spec_record(s: Seq<u8>) -> Option<(u16, nat, nat)> {
    match spec_tag(s) {
        Some((tag, a)) => match spec_len(s.subrange(a as int, s.len() as int)) {
            Some((len, b)) => Some((tag, a + b, a + b + len)),
            None => None,
        },
        None => None,
    }
}

/// The records of `s`, in order, up to the first one that is incomplete.
pub open spec fn decode(s: Seq<u8>) -> Seq<(u16, Seq<u8>)>
    decreases s.len(),
{
    match spec_record(s) {
        Some((tag, h, t)) => if 0 < t && h <= t && t <= s.len() {
            seq![(tag, s.subrange(h as int, t as int))] + decode(s.subrange(t as int, s.len() as int))
        } else {
            Seq::empty()
        },
        None => Seq::empty(),
    }
}

fn parse_tag(data: &[u8]) -> (r: Option<(u16, usize)>)
    ensures
        match spec_tag(data@) {
            Some((tag, n)) => r == Some((tag, n as usize)),
            None => r is None,
        },
{
    if data.len() == 0 {
        return None;
    }
    let i = data[0];
    if i & 0x1f != 0x1f {
        return Some((i as u16, 1));
    }
    if data.len() < 2 {
        return None;
    }
    let j = data[1];
    Some((((i as u16) << 8u16) | (j as u16), 2))
}

proof fn lemma_be_value_prefix(s: Seq<u8>, m: int)
    requires
        0 <= m <= s.len(),
    ensures
        be_value(s.take(m)) <= be_value(s),
    decreases s.len(),
{
    if m == s.len() {
        assert(s.take(m) =~= s);
    } else {
        lemma_be_value_prefix(s.drop_last(), m);
        assert(s.drop_last().take(m) =~= s.take(m));
    }
}

fn parse_len(data: &[u8]) -> (r: Option<(usize, usize)>)
    ensures
        match spec_len(data@) {
            Some((len, n)) => if len <= usize::MAX {
                r == Some((len as usize, n as usize))
            } else {
                r is None
            },
            None => r is None,
        },
{
    if data.len() == 0 {
        return None;
    }
    let i = data[0];
    if i <= 0x80 {
        return Some((i as usize, 1));
    }
    let count = (i - 0x80) as usize;
    if data.len() - 1 < count {
        return None;
    }
    let ghost digits = data@.subrange(1, 1 + count);
    assert(spec_len(data@) == Some((be_value(digits), (1 + count) as nat)));
    let mut k: usize = 0;
    let mut p: usize = 1;
    assert(data@.subrange(1, 1) =~= Seq::<u8>::empty());
    while p <= count
        invariant
            1 <= p <= count + 1,
            count + 1 <= data@.len(),
            digits == data@.subrange(1, 1 + count),
            spec_len(data@) == Some((be_value(digits), (1 + count) as nat)),
            k == be_value(data@.subrange(1, p as int)),
        decreases count + 1 - p,
    {
        let b = data[p];
        assert(data@.subrange(1, p + 1).drop_last() =~= data@.subrange(1, p as int));
        assert(be_value(data@.subrange(1, p + 1)) == k * 256 + b);
        assert(digits.take(p as int) =~= data@.subrange(1, p + 1));
        match k.checked_mul(256) {
            Some(x) => match x.checked_add(b as usize) {
                Some(y) => {
                    k = y;
                },
                None => {
                    proof {
                        lemma_be_value_prefix(digits, p as int);
                    }
                    return None;
                },
            },
            None => {
                proof {
                    lemma_be_value_prefix(digits, p as int);
                }
                return None;
            },
        }
        p = p + 1;
    }
    Some((k, count + 1))
}

/// Reads the header of the record at the start of `data`: its tag, the offset
/// of its payload and the offset where the record ends. Whether the payload
/// fits in `data` is not checked here. `None` when the tag or the length field
/// is incomplete, or when the end offset does not fit in a `usize`.
pub fn parse_tlv(data: &[u8]) -> (r: Option<(u16, usize, usize)>)
    ensures
        match spec_record(data@) {
            Some((tag, h, t)) => if t <= usize::MAX {
                r == Some((tag, h as usize, t as usize))
            } else {
                r is None
            },
            None => r is None,
        },
        r matches Some((_, h, t)) ==> 2 <= h <= t,
{
    let (tag, l1) = match parse_tag(data) {
        Some(x) => x,
        None => return None,
    };
    let (len, l2) = match parse_len(slice_subrange(data, l1, data.len())) {
        Some(x) => x,
        None => return None,
    };
    let hdr = l1 + l2;
    match hdr.checked_add(len) {
        Some(total) => Some((tag, hdr, total)),
        None => None,
    }
}

/// A forward walk over the records of a buffer. The payloads it hands out
/// borrow from the buffer. It stops at the first record that is incomplete.
pub struct Iter<'a> {
    slice: &'a [u8],
    offset: usize,
}

impl<'a> Iter<'a> {
    /// The bytes not walked yet.
    pub closed spec fn unread(&self) -> Seq<u8> {
        self.slice@.subrange(self.offset as int, self.slice@.len() as int)
    }

    pub closed spec fn wf(&self) -> bool {
        self.offset <= self.slice@.len()
    }

    /// The records still to come.
    pub open spec fn rest(&self) -> Seq<(u16, Seq<u8>)> {
        decode(self.unread())
    }

    pub fn new(slice: &'a [u8]) -> (r: Iter<'a>)
        ensures
            r.wf(),
            r.unread() == slice@,
            r.rest() == decode(slice@),
    {
        let r = Iter { slice, offset: 0 };
        assert(r.unread() =~= slice@);
        r
    }

    /// The next record, as its tag and its payload; `None` once no complete
    /// record is left, and then the walk stays where it is.
    pub fn next(&mut self) -> (r: Option<(u16, &'a [u8])>)
        requires
            old(self).wf(),
        ensures
            final(self).wf(),
            old(self).rest().len() == 0 ==> r is None && final(self).unread() == old(self).unread(),
            old(self).rest().len() > 0 ==> (r matches Some((tag, payload)) && (tag, payload@)
                == old(self).rest()[0] && final(self).rest() == old(self).rest().drop_first()),
    {
        let ghost s = self.unread();
        let rest = slice_subrange(self.slice, self.offset, self.slice.len());
        assert(rest@ == s);
        let (tag, beg, end) = match parse_tlv(rest) {
            Some(x) => x,
            None => {
                assert(decode(s) =~= Seq::<(u16, Seq<u8>)>::empty());
                return None;
            },
        };
        if end > rest.len() {
            assert(decode(s) =~= Seq::<(u16, Seq<u8>)>::empty());
            return None;
        }
        let data = slice_subrange(rest, beg, end);
        self.offset = self.offset + end;
        assert(s.subrange(end as int, s.len() as int) =~= self.unread());
        assert(decode(s).drop_first() =~= decode(self.unread()));
        Some((tag, data))
    }
}

/// Tags that `write` accepts: one whose high byte is set must mark, in that
/// byte's low five bits, that a second byte follows.
pub open spec fn writable_tag(tag: u16) -> bool {
    (tag >> 8u16) != 0 ==> ((tag >> 8u16) & 0x1f) == 0x1f
}

/// Tags that read back as written: a one-byte tag must not look like the
/// first byte of a two-byte tag.
pub open spec fn readable_tag(tag: u16) -> bool {
    writable_tag(tag) && ((tag >> 8u16) == 0 ==> (tag & 0x1f) != 0x1f)
}

/// The bytes of one record with a one-byte length.
pub open spec fn encode(tag: u16, payload: Seq<u8>) -> Seq<u8> {
    (if (tag >> 8u16) != 0 {
        seq![(tag >> 8u16) as u8]
    } else {
        Seq::empty()
    }) + seq![#[verifier::truncate] (tag as u8), payload.len() as u8] + payload
}

/// Appends one record to `v`: the high tag byte if it is not zero, the low
/// tag byte, the payload's length in one byte, and the payload.
pub fn write(v: &mut Vec<u8>, tag: u16, payload: &[u8])
    requires
        writable_tag(tag),
        payload@.len() < 0x80,
        old(v)@.len() + 3 + payload@.len() <= usize::MAX,
    ensures
        final(v)@ == old(v)@ + encode(tag, payload@),
{
    let ghost start = v@;
    let ghost marker: Seq<u8> = if (tag >> 8u16) != 0 {
        seq![(tag >> 8u16) as u8]
    } else {
        Seq::empty()
    };
    assert((tag >> 8u16) <= 0xff) by (bit_vector);
    let hi = (tag >> 8u16) as u8;
    if hi > 0 {
        v.push(hi);
    }
    v.push(#[verifier::truncate] (tag as u8));
    v.push(payload.len() as u8);
    let ghost head = v@;
    assert(head =~= start + marker + seq![tag as u8, payload.len() as u8]);
    let mut i: usize = 0;
    while i < payload.len()
        invariant
            i <= payload@.len(),
            head == start + marker + seq![tag as u8, payload@.len() as u8],
            v@ == head + payload@.take(i as int),
        decreases payload@.len() - i,
    {
        v.push(payload[i]);
        assert(payload@.take(i + 1) =~= payload@.take(i as int).push(payload@[i as int]));
        i = i + 1;
    }
    assert(payload@.take(i as int) =~= payload@);
    assert(v@ =~= start + encode(tag, payload@));
}

/// One record written by `write` and read back gives its tag and payload
/// and nothing else.
pub proof fn lemma_round_trip(tag: u16, payload: Seq<u8>)
    requires
        readable_tag(tag),
        payload.len() < 0x80,
    ensures
        decode(encode(tag, payload)) == seq![(tag, payload)],
        all_records(encode(tag, payload)),
{
    let e = encode(tag, payload);
    let hi = #[verifier::truncate] ((tag >> 8u16) as u8);
    let lo = #[verifier::truncate] (tag as u8);
    let a: nat = if (tag >> 8u16) != 0 { 2 } else { 1 };
    if (tag >> 8u16) != 0 {
        assert(hi & 0x1f == 0x1f && (((hi as u16) << 8u16) | (lo as u16)) == tag) by (bit_vector)
            requires
                hi == (tag >> 8u16) as u8,
                lo == tag as u8,
                ((tag >> 8u16) & 0x1f) == 0x1f,
        ;
        assert(e[0] == hi && e[1] == lo);
    } else {
        assert(lo & 0x1f != 0x1f && lo as u16 == tag) by (bit_vector)
            requires
                lo == tag as u8,
                (tag >> 8u16) == 0,
                (tag & 0x1f) != 0x1f,
        ;
        assert(e[0] == lo);
    }
    assert(spec_tag(e) == Some((tag, a)));
    let after = e.subrange(a as int, e.len() as int);
    assert(after[0] == payload.len() as u8);
    assert(spec_len(after) == Some((payload.len(), 1nat)));
    assert(e.subrange(a + 1int, e.len() as int) =~= payload);
    assert(decode(e.subrange(e.len() as int, e.len() as int)) =~= Seq::<(u16, Seq<u8>)>::empty());
    assert(decode(e) =~= seq![(tag, payload)]);
    assert(spec_record(e.subrange(e.len() as int, e.len() as int)) is None);
    assert(consumed(e.subrange(e.len() as int, e.len() as int)) == 0);
    assert(spec_record(e) == Some((tag, a + 1, e.len())));
    assert(consumed(e) == e.len());
}

proof fn lemma_record_of_prefix(s: Seq<u8>, n: int)
    requires
        0 <= n <= s.len(),
        spec_record(s.take(n)) matches Some((_, h, _)) && h <= n,
    ensures
        spec_record(s) == spec_record(s.take(n)),
{
    let p = s.take(n);
    let (_, a) = spec_tag(p).unwrap();
    assert(spec_tag(s) == spec_tag(p));
    let ps = p.subrange(a as int, n);
    let ss = s.subrange(a as int, s.len() as int);
    assert(ps[0] == ss[0]);
    if ps[0] > 0x80 {
        let count = (ps[0] - 0x80) as nat;
        assert(ps.subrange(1, 1 + count as int) =~= ss.subrange(1, 1 + count as int));
    }
    assert(spec_len(ss) == spec_len(ps));
}

/// Decoding the first `n` bytes of a buffer gives the first records of the
/// whole buffer, each of them complete, and never more records than it has.
pub proof fn lemma_decode_prefix(s: Seq<u8>, n: int)
    requires
        0 <= n <= s.len(),
    ensures
        decode(s.take(n)).is_prefix_of(decode(s)),
    decreases s.len(),
{
    let p = s.take(n);
    match spec_record(p) {
        Some((tag, h, t)) => {
            if 0 < t && h <= t && t <= p.len() {
                lemma_record_of_prefix(s, n);
                let s2 = s.subrange(t as int, s.len() as int);
                lemma_decode_prefix(s2, n - t);
                assert(p.subrange(t as int, n) =~= s2.take(n - t));
                assert(p.subrange(h as int, t as int) =~= s.subrange(h as int, t as int));
                let dp = decode(p);
                let ds = decode(s);
                assert(dp == seq![(tag, s.subrange(h as int, t as int))] + decode(s2.take(n - t)));
                assert(ds == seq![(tag, s.subrange(h as int, t as int))] + decode(s2));
                assert forall|i: int| 0 <= i < dp.len() implies dp[i] == ds[i] by {
                    if i > 0 {
                        assert(dp[i] == decode(s2.take(n - t))[i - 1]);
                        assert(ds[i] == decode(s2)[i - 1]);
                    }
                }
            } else {
                assert(decode(p) =~= Seq::<(u16, Seq<u8>)>::empty());
            }
        },
        None => {
            assert(decode(p) =~= Seq::<(u16, Seq<u8>)>::empty());
        },
    }
}

/// How many bytes of `s` its complete records take, from the start.
pub open spec fn consumed(s: Seq<u8>) -> nat
    decreases s.len(),
{
    match spec_record(s) {
        Some((_, h, t)) => if 0 < t && h <= t && t <= s.len() {
            t + consumed(s.subrange(t as int, s.len() as int))
        } else {
            0
        },
        None => 0,
    }
}

/// A buffer made of complete records only, with nothing after the last.
pub open spec fn all_records(s: Seq<u8>) -> bool {
    consumed(s) == s.len()
}

/// Cutting a buffer of complete records short loses at least its last record:
/// what is left decodes to a strict prefix of the whole buffer's records.
pub proof fn lemma_decode_strict_prefix(s: Seq<u8>, n: int)
    requires
        all_records(s),
        0 <= n < s.len(),
    ensures
        decode(s.take(n)).is_prefix_of(decode(s)),
        decode(s.take(n)).len() < decode(s).len(),
    decreases s.len(),
{
    lemma_decode_prefix(s, n);
    let p = s.take(n);
    match spec_record(p) {
        Some((tag, h, t)) => {
            if 0 < t && h <= t && t <= p.len() {
                lemma_record_of_prefix(s, n);
                let s2 = s.subrange(t as int, s.len() as int);
                assert(p.subrange(t as int, n) =~= s2.take(n - t));
                lemma_decode_strict_prefix(s2, n - t);
            } else {
                assert(decode(p) =~= Seq::<(u16, Seq<u8>)>::empty());
            }
        },
        None => {
            assert(decode(p) =~= Seq::<(u16, Seq<u8>)>::empty());
        },
    }
}

/// Writing a record after complete records adds exactly that record to
/// what the buffer decodes to, and leaves a buffer of complete records.
pub proof fn lemma_write_appends_record(b: Seq<u8>, tag: u16, payload: Seq<u8>)
    requires
        all_records(b),
        readable_tag(tag),
        payload.len() < 0x80,
    ensures
        decode(b + encode(tag, payload)) == decode(b) + seq![(tag, payload)],
        all_records(b + encode(tag, payload)),
    decreases b.len(),
{
    let e = encode(tag, payload);
    let be = b + e;
    if b.len() == 0 {
        lemma_round_trip(tag, payload);
        assert(be =~= e);
        assert(decode(b) =~= Seq::<(u16, Seq<u8>)>::empty());
        assert(decode(be) =~= decode(b) + seq![(tag, payload)]);
    } else {
        let (t0, h, t) = spec_record(b).unwrap();
        assert(be.take(b.len() as int) =~= b);
        lemma_record_of_prefix(be, b.len() as int);
        let b2 = b.subrange(t as int, b.len() as int);
        assert(be.subrange(t as int, be.len() as int) =~= b2 + e);
        assert(be.subrange(h as int, t as int) =~= b.subrange(h as int, t as int));
        lemma_write_appends_record(b2, tag, payload);
        assert(decode(be) =~= decode(b) + seq![(tag, payload)]);
    }
}

} // verus!
