use vstd::prelude::*;
use crate::codec::{le32, read_le32, lemma_le32_round_trip, push_le32, get_le32};

verus! {

/// One named value as it stands in the persisted blob.
pub struct Record {
    pub name: Vec<u8>,
    pub value: Vec<u8>,
}

impl Record {
    pub open spec fn view(&self) -> (Seq<u8>, Seq<u8>) {
        (self.name@, self.value@)
    }
}

pub open spec fn records_view(rs: Seq<Record>) -> Seq<(Seq<u8>, Seq<u8>)> {
    rs.map_values(|r: Record| r.view())
}

/// Each name and value length fits the four-byte length field.
pub open spec fn fits_u32(es: Seq<(Seq<u8>, Seq<u8>)>) -> bool {
    forall|i: int| 0 <= i < es.len() ==> es[i].0.len() <= u32::MAX && es[i].1.len() <= u32::MAX
}

/// A record: the name's length, the name, the value's length, the value.
pub open spec fn encode_record(e: (Seq<u8>, Seq<u8>)) -> Seq<u8> {
    le32(e.0.len() as u32) + e.0 + le32(e.1.len() as u32) + e.1
}

/// The blob holding every record in turn.
pub open spec fn encode_records(es: Seq<(Seq<u8>, Seq<u8>)>) -> Seq<u8>
    decreases es.len(),
{
    if es.len() == 0 {
        Seq::empty()
    } else {
        encode_record(es[0]) + encode_records(es.drop_first())
    }
}

/// The records that a blob holds, or `None` where its framing breaks.
pub open spec fn parse_records(b: Seq<u8>) -> Option<Seq<(Seq<u8>, Seq<u8>)>>
    decreases b.len(),
{
    if b.len() == 0 {
        Some(Seq::empty())
    } else if b.len() < 4 {
        None
    } else {
        let n = read_le32(b) as int;
        if b.len() < 8 + n {
            None
        } else {
            let m = read_le32(b.skip(4 + n)) as int;
            if b.len() < 8 + n + m {
                None
            } else {
                let e = (b.subrange(4, 4 + n), b.subrange(8 + n, 8 + n + m));
                prepend(seq![e], parse_records(b.skip(8 + n + m)))
            }
        }
    }
}

pub open spec fn prepend(
    head: Seq<(Seq<u8>, Seq<u8>)>,
    rest: Option<Seq<(Seq<u8>, Seq<u8>)>>,
) -> Option<Seq<(Seq<u8>, Seq<u8>)>> {
    match rest {
        Some(r) => Some(head + r),
        None => None,
    }
}

proof fn lemma_encode_push(es: Seq<(Seq<u8>, Seq<u8>)>, e: (Seq<u8>, Seq<u8>))
    ensures
        encode_records(es.push(e)) == encode_records(es) + encode_record(e),
    decreases es.len(),
{
    if es.len() == 0 {
        assert(es.push(e).drop_first() =~= Seq::empty());
        assert(es.push(e)[0] == e);
        assert(encode_records(es.push(e).drop_first()) == Seq::<u8>::empty());
        assert(encode_records(es) == Seq::<u8>::empty());
        assert(encode_records(es.push(e)) =~= encode_records(es) + encode_record(e));
    } else {
        assert(es.push(e).drop_first() =~= es.drop_first().push(e));
        assert(es.push(e)[0] == es[0]);
        lemma_encode_push(es.drop_first(), e);
        assert(encode_records(es.push(e)) == encode_record(es[0]) + (encode_records(
            es.drop_first()) + encode_record(e)));
        assert(encode_records(es.push(e)) =~= encode_records(es) + encode_record(e));
    }
}

proof fn lemma_read_le32_prefix(a: Seq<u8>, b: Seq<u8>)
    requires
        a.len() >= 4,
        b.len() >= 4,
        a[0] == b[0] && a[1] == b[1] && a[2] == b[2] && a[3] == b[3],
    ensures
        read_le32(a) == read_le32(b),
{
    reveal(read_le32);
}

/// Parsing the blob of a sequence of records gives the records back.
pub proof fn lemma_records_round_trip(es: Seq<(Seq<u8>, Seq<u8>)>)
    requires
        fits_u32(es),
    ensures
        parse_records(encode_records(es)) == Some(es),
    decreases es.len(),
{
    if es.len() == 0 {
    } else {
        let e = es[0];
        let rest = es.drop_first();
        assert(fits_u32(rest)) by {
            assert forall|i: int| 0 <= i < rest.len() implies rest[i].0.len() <= u32::MAX
                && rest[i].1.len() <= u32::MAX by {
                assert(rest[i] == es[i + 1]);
            }
        }
        lemma_records_round_trip(rest);
        let n = e.0.len() as int;
        let m = e.1.len() as int;
        let x = le32(n as u32);
        let y = le32(m as u32);
        lemma_le32_round_trip(n as u32);
        lemma_le32_round_trip(m as u32);
        let tail = encode_records(rest);
        let b = encode_records(es);
        assert(b =~= x + (e.0 + (y + (e.1 + tail))));
        lemma_read_le32_prefix(b, x);
        let s = b.skip(4 + n);
        assert(s =~= y + (e.1 + tail));
        lemma_read_le32_prefix(s, y);
        assert(b.subrange(4, 4 + n) =~= e.0);
        assert(b.subrange(8 + n, 8 + n + m) =~= e.1);
        assert(b.skip(8 + n + m) =~= tail);
        assert(seq![e] + rest =~= es);
    }
}

/// Copies `b[start..end]` into a new vector.
fn copy_range(b: &[u8], start: usize, end: usize) -> (r: Vec<u8>)
    requires
        start <= end <= b@.len(),
    ensures
        r@ == b@.subrange(start as int, end as int),
{
    let mut r: Vec<u8> = Vec::new();
    let mut i: usize = start;
    while i < end
        invariant
            start <= i <= end <= b@.len(),
            r@ == b@.subrange(start as int, i as int),
        decreases end - i,
    {
        r.push(b[i]);
        i = i + 1;
        assert(r@ =~= b@.subrange(start as int, i as int));
    }
    r
}

/// Appends bytes to `out`.
fn push_all(out: &mut Vec<u8>, b: &Vec<u8>)
    ensures
        final(out)@ == old(out)@ + b@,
{
    let mut i: usize = 0;
    while i < b.len()
        invariant
            i <= b@.len(),
            out@ == old(out)@ + b@.subrange(0, i as int),
        decreases b@.len() - i,
    {
        out.push(b[i]);
        i = i + 1;
        assert(out@ =~= old(out)@ + b@.subrange(0, i as int));
    }
    assert(b@.subrange(0, b@.len() as int) =~= b@);
}

/// The blob holding `records` in order.
pub fn serialize_records(records: &Vec<Record>) -> (r: Vec<u8>)
    requires
        fits_u32(records_view(records@)),
    ensures
        r@ == encode_records(records_view(records@)),
{
    let ghost es = records_view(records@);
    let mut out: Vec<u8> = Vec::new();
    let mut i: usize = 0;
    while i < records.len()
        invariant
            i <= records@.len(),
            es == records_view(records@),
            fits_u32(es),
            out@ == encode_records(es.take(i as int)),
        decreases records@.len() - i,
    {
        let rec = &records[i];
        assert(es[i as int] == rec.view());
        push_le32(&mut out, rec.name.len() as u32);
        push_all(&mut out, &rec.name);
        push_le32(&mut out, rec.value.len() as u32);
        push_all(&mut out, &rec.value);
        proof {
            lemma_encode_push(es.take(i as int), es[i as int]);
            assert(es.take(i as int).push(es[i as int]) =~= es.take(i + 1));
        }
        i = i + 1;
    }
    assert(es.take(i as int) =~= es);
    out
}

/// The records that a blob holds, or `None` where its framing breaks.
pub fn parse_blob(b: &[u8]) -> (r: Option<Vec<Record>>)
    ensures
        match r {
            Some(rs) => parse_records(b@) == Some(records_view(rs@)),
            None => parse_records(b@) is None,
        },
{
    let mut acc: Vec<Record> = Vec::new();
    let mut pos: usize = 0;
    assert(b@.skip(0) =~= b@);
    assert(records_view(acc@) =~= Seq::empty());
    proof {
        match parse_records(b@) {
            Some(r) => assert(Seq::<(Seq<u8>, Seq<u8>)>::empty() + r =~= r),
            None => {},
        }
    }
    while pos < b.len()
        invariant
            pos <= b@.len(),
            prepend(records_view(acc@), parse_records(b@.skip(pos as int))) == parse_records(b@),
        decreases b@.len() - pos,
    {
        let ghost s = b@.skip(pos as int);
        let avail = b.len() - pos;
        if avail < 4 {
            return None;
        }
        let n = get_le32(b, pos) as usize;
        assert(b@.subrange(pos as int, b@.len() as int) =~= s);
        if avail - 4 < n || avail - 4 - n < 4 {
            return None;
        }
        let m = get_le32(b, pos + 4 + n) as usize;
        assert(b@.subrange(pos + 4 + n, b@.len() as int) =~= s.skip(4 + n));
        if avail - 8 - n < m {
            return None;
        }
        let name = copy_range(b, pos + 4, pos + 4 + n);
        let value = copy_range(b, pos + 8 + n, pos + 8 + n + m);
        assert(name@ =~= s.subrange(4, 4 + n));
        assert(value@ =~= s.subrange(8 + n, 8 + n + m));
        let ghost old_acc = records_view(acc@);
        acc.push(Record { name, value });
        pos = pos + 8 + n + m;
        assert(b@.skip(pos as int) =~= s.skip(8 + n + m));
        assert(records_view(acc@) =~= old_acc + seq![(name@, value@)]);
        assert(old_acc + (seq![(name@, value@)] + parse_records(b@.skip(pos as int))->0)
            =~= (old_acc + seq![(name@, value@)]) + parse_records(b@.skip(pos as int))->0);
    }
    assert(b@.skip(pos as int) =~= Seq::empty());
    assert(records_view(acc@) + Seq::empty() =~= records_view(acc@));
    Some(acc)
}

/// The records that can be read from the start of a blob: all of them where
/// its framing holds, those before the first break otherwise.
pub open spec fn readable_records(b: Seq<u8>) -> Seq<(Seq<u8>, Seq<u8>)>
    decreases b.len(),
{
    if b.len() < 4 {
        Seq::empty()
    } else {
        let n = read_le32(b) as int;
        if b.len() < 8 + n {
            Seq::empty()
        } else {
            let m = read_le32(b.skip(4 + n)) as int;
            if b.len() < 8 + n + m {
                Seq::empty()
            } else {
                seq![(b.subrange(4, 4 + n), b.subrange(8 + n, 8 + n + m))] + readable_records(
                    b.skip(8 + n + m),
                )
            }
        }
    }
}

/// Where the framing of a blob holds, the readable records are all of them.
pub proof fn lemma_readable_of_parsed(b: Seq<u8>)
    requires
        parse_records(b) is Some,
    ensures
        readable_records(b) == parse_records(b)->0,
    decreases b.len(),
{
    if b.len() > 0 {
        let n = read_le32(b) as int;
        let m = read_le32(b.skip(4 + n)) as int;
        lemma_readable_of_parsed(b.skip(8 + n + m));
    }
}

/// Every readable record has lengths that fit its length fields.
pub proof fn lemma_readable_fits(b: Seq<u8>)
    ensures
        fits_u32(readable_records(b)),
    decreases b.len(),
{
    if b.len() >= 4 {
        let n = read_le32(b) as int;
        if b.len() >= 8 + n {
            let m = read_le32(b.skip(4 + n)) as int;
            if b.len() >= 8 + n + m {
                lemma_readable_fits(b.skip(8 + n + m));
                let rest = readable_records(b.skip(8 + n + m));
                let all = readable_records(b);
                assert forall|i: int| 0 <= i < all.len() implies all[i].0.len() <= u32::MAX
                    && all[i].1.len() <= u32::MAX by {
                    if i > 0 {
                        assert(all[i] == rest[i - 1]);
                    }
                }
            }
        }
    }
}

/// The records that can be read from the start of a blob, up to the first
/// break in its framing.
pub fn read_records(b: &[u8]) -> (r: Vec<Record>)
    ensures
        records_view(r@) == readable_records(b@),
{
    let mut acc: Vec<Record> = Vec::new();
    let mut pos: usize = 0;
    assert(b@.skip(0) =~= b@);
    assert(records_view(acc@) + readable_records(b@) =~= readable_records(b@));
    while pos < b.len()
        invariant
            pos <= b@.len(),
            records_view(acc@) + readable_records(b@.skip(pos as int)) == readable_records(b@),
        decreases b@.len() - pos,
    {
        let ghost s = b@.skip(pos as int);
        let avail = b.len() - pos;
        if avail < 4 {
            assert(readable_records(s) =~= Seq::empty());
            assert(records_view(acc@) + Seq::empty() =~= records_view(acc@));
            return acc;
        }
        let n = get_le32(b, pos) as usize;
        assert(b@.subrange(pos as int, b@.len() as int) =~= s);
        if avail - 4 < n || avail - 4 - n < 4 {
            assert(readable_records(s) =~= Seq::empty());
            assert(records_view(acc@) + Seq::empty() =~= records_view(acc@));
            return acc;
        }
        let m = get_le32(b, pos + 4 + n) as usize;
        assert(b@.subrange(pos + 4 + n, b@.len() as int) =~= s.skip(4 + n));
        if avail - 8 - n < m {
            assert(readable_records(s) =~= Seq::empty());
            assert(records_view(acc@) + Seq::empty() =~= records_view(acc@));
            return acc;
        }
        let name = copy_range(b, pos + 4, pos + 4 + n);
        let value = copy_range(b, pos + 8 + n, pos + 8 + n + m);
        assert(name@ =~= s.subrange(4, 4 + n));
        assert(value@ =~= s.subrange(8 + n, 8 + n + m));
        let ghost old_acc = records_view(acc@);
        acc.push(Record { name, value });
        pos = pos + 8 + n + m;
        assert(b@.skip(pos as int) =~= s.skip(8 + n + m));
        assert(records_view(acc@) =~= old_acc + seq![(name@, value@)]);
        assert(old_acc + (seq![(name@, value@)] + readable_records(b@.skip(pos as int)))
            =~= (old_acc + seq![(name@, value@)]) + readable_records(b@.skip(pos as int)));
    }
    assert(readable_records(b@.skip(pos as int)) =~= Seq::empty());
    assert(records_view(acc@) + Seq::empty() =~= records_view(acc@));
    acc
}

} // verus!
