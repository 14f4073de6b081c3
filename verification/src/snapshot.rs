//! The snapshot loader: a binary stream of records is parsed into typed
//! entries and fed into the keyspace, honoring expiry during load.
//!
//! The file layout is a 9-octet header, a body of tagged records, and a
//! terminator tag. The whole grammar is written down as spec functions
//! (`parse_size`, `parse_string`, `parse_records`), and the reader is
//! proved to produce exactly that parse, truncating at the first decode
//! failure.

use vstd::prelude::*;
use vstd::utf8::decode_utf8;
use vstd::utf8::valid_utf8;

use crate::repository::Entry;
use crate::repository::EntryModel;
use crate::repository::Expiry;
use crate::repository::Repository;
use crate::repository::TimeUnit;
use crate::repository::expiry_millis;
use crate::text::convert_to_string;
use crate::text::dec_chars;
use crate::text::usize_to_string;

verus! {

/// What a size prefix denotes: a byte count, or the width of an
/// integer-encoded string.
#[derive(Clone, Copy, Debug, PartialEq, Eq, Structural)]
pub enum RdbSize {
    Length(usize),
    IntWidth(usize),
}

/// Little-endian value of a byte sequence.
pub open spec fn le_value(s: Seq<u8>) -> nat
    decreases s.len(),
{
    if s.len() == 0 {
        0
    } else {
        s[0] as nat + 256 * le_value(s.drop_first())
    }
}

pub open spec fn pow256(n: nat) -> nat
    decreases n,
{
    if n == 0 {
        1
    } else {
        256 * pow256((n - 1) as nat)
    }
}

proof fn lemma_pow256_values()
    ensures
        pow256(4) == 0x1_0000_0000,
        pow256(7) == 0x100_0000_0000_0000,
        pow256(8) == 0x1_0000_0000_0000_0000,
{
    reveal_with_fuel(pow256, 9);
}

pub proof fn lemma_le_value_bound(s: Seq<u8>)
    ensures
        le_value(s) < pow256(s.len()),
    decreases s.len(),
{
    if s.len() > 0 {
        lemma_le_value_bound(s.drop_first());
        assert(le_value(s) < pow256(s.len())) by (nonlinear_arith)
            requires
                le_value(s) == s[0] as nat + 256 * le_value(s.drop_first()),
                le_value(s.drop_first()) < pow256((s.len() - 1) as nat),
                pow256(s.len()) == 256 * pow256((s.len() - 1) as nat),
                s[0] < 256,
        ;
    }
}

/// The size prefix at `pos`: the top two bits of the first byte select the
/// mode (6-bit, 14-bit, 32-bit big-endian, or integer-encoded string).
pub open spec fn parse_size(b: Seq<u8>, pos: int) -> Option<(RdbSize, int)> {
    if !(0 <= pos < b.len()) {
        Option::None
    } else {
        let first = b[pos];
        let mode = first / 64;
        let low = (first % 64) as nat;
        if mode == 0 {
            Option::Some((RdbSize::Length(low as usize), pos + 1))
        } else if mode == 1 {
            if pos + 2 <= b.len() {
                Option::Some((RdbSize::Length((low * 256 + b[pos + 1] as nat) as usize), pos + 2))
            } else {
                Option::None
            }
        } else if mode == 2 {
            if pos + 5 <= b.len() {
                Option::Some(
                    (
                        RdbSize::Length(
                            (((b[pos + 1] as nat * 256 + b[pos + 2] as nat) * 256 + b[pos + 3] as nat)
                                * 256 + b[pos + 4] as nat) as usize,
                        ),
                        pos + 5,
                    ),
                )
            } else {
                Option::None
            }
        } else {
            if low == 0 {
                Option::Some((RdbSize::IntWidth(1), pos + 1))
            } else if low == 1 {
                Option::Some((RdbSize::IntWidth(2), pos + 1))
            } else if low == 2 {
                Option::Some((RdbSize::IntWidth(4), pos + 1))
            } else {
                Option::None
            }
        }
    }
}

/// The string at `pos`: a size prefix, then either that many octets of
/// UTF-8, or an integer-encoded string rendered in ASCII decimal.
pub open spec fn parse_string(b: Seq<u8>, pos: int) -> Option<(Seq<char>, int)> {
    match parse_size(b, pos) {
        Option::None => Option::None,
        Option::Some((sz, p)) => match sz {
            RdbSize::Length(n) => if p + n <= b.len() && valid_utf8(b.subrange(p, p + n)) {
                Option::Some((decode_utf8(b.subrange(p, p + n)), p + n))
            } else {
                Option::None
            },
            RdbSize::IntWidth(w) => if p + w <= b.len() {
                Option::Some((dec_chars(le_value(b.subrange(p, p + w))), p + w))
            } else {
                Option::None
            },
        },
    }
}

/// The records of the body starting at `pos`, truncated at the terminator
/// tag, at any unknown tag, or at the first decode failure.
pub open spec fn parse_records(b: Seq<u8>, pos: int) -> Seq<EntryModel>
    decreases b.len() - pos,
        when 0 <= pos <= b.len()
{
    if !(0 <= pos < b.len()) {
        Seq::empty()
    } else {
        let tag = b[pos];
        if tag == 0xfa {
            // metadata: a key and a value, both discarded
            match parse_string(b, pos + 1) {
                Option::None => Seq::empty(),
                Option::Some((_k, p1)) => match parse_string(b, p1) {
                    Option::None => Seq::empty(),
                    Option::Some((_v, p2)) => if pos < p2 <= b.len() {
                        parse_records(b, p2)
                    } else {
                        Seq::empty()
                    },
                },
            }
        } else if tag == 0xfe {
            // database selector: one byte, discarded
            if pos + 2 <= b.len() {
                parse_records(b, pos + 2)
            } else {
                Seq::empty()
            }
        } else if tag == 0xfb {
            // hash-table sizes: two sizes, discarded
            match parse_size(b, pos + 1) {
                Option::None => Seq::empty(),
                Option::Some((_s1, p1)) => match parse_size(b, p1) {
                    Option::None => Seq::empty(),
                    Option::Some((_s2, p2)) => if pos < p2 <= b.len() {
                        parse_records(b, p2)
                    } else {
                        Seq::empty()
                    },
                },
            }
        } else if tag == 0x00 {
            // entry without expiry
            match parse_string(b, pos + 1) {
                Option::None => Seq::empty(),
                Option::Some((k, p1)) => match parse_string(b, p1) {
                    Option::None => Seq::empty(),
                    Option::Some((v, p2)) => if pos < p2 <= b.len() {
                        seq![EntryModel { key: k, value: v, expiry: Option::None }]
                            + parse_records(b, p2)
                    } else {
                        Seq::empty()
                    },
                },
            }
        } else if tag == 0xfc {
            // entry with millisecond expiry: 8-byte LE instant, an encoding
            // byte, then key and value
            if pos + 10 <= b.len() {
                let ms = le_value(b.subrange(pos + 1, pos + 9));
                match parse_string(b, pos + 10) {
                    Option::None => Seq::empty(),
                    Option::Some((k, p1)) => match parse_string(b, p1) {
                        Option::None => Seq::empty(),
                        Option::Some((v, p2)) => if pos < p2 <= b.len() {
                            seq![
                                EntryModel {
                                    key: k,
                                    value: v,
                                    expiry: Option::Some(
                                        Expiry { epoch: ms as u128, unit: TimeUnit::Millisecond },
                                    ),
                                },
                            ] + parse_records(b, p2)
                        } else {
                            Seq::empty()
                        },
                    },
                }
            } else {
                Seq::empty()
            }
        } else if tag == 0xfd {
            // entry with seconds expiry: 4-byte LE instant, an encoding
            // byte, then key and value; stored in milliseconds
            if pos + 6 <= b.len() {
                let secs = le_value(b.subrange(pos + 1, pos + 5));
                match parse_string(b, pos + 6) {
                    Option::None => Seq::empty(),
                    Option::Some((k, p1)) => match parse_string(b, p1) {
                        Option::None => Seq::empty(),
                        Option::Some((v, p2)) => if pos < p2 <= b.len() {
                            seq![
                                EntryModel {
                                    key: k,
                                    value: v,
                                    expiry: Option::Some(
                                        Expiry {
                                            epoch: (secs * 1000) as u128,
                                            unit: TimeUnit::Millisecond,
                                        },
                                    ),
                                },
                            ] + parse_records(b, p2)
                        } else {
                            Seq::empty()
                        },
                    },
                }
            } else {
                Seq::empty()
            }
        } else {
            // the terminator tag, or an unknown tag: parsing stops cleanly
            Seq::empty()
        }
    }
}

/// All records parsed from a snapshot image: empty unless the 9-octet
/// header is present.
pub open spec fn snapshot_records(b: Seq<u8>) -> Seq<EntryModel> {
    if b.len() >= 9 {
        parse_records(b, 9)
    } else {
        Seq::empty()
    }
}

/// One parsing step: an entry, a skipped non-entry record, or the end.
enum RecordStep {
    Stop,
    Skip,
    Item(Entry),
}

/// A sequential reader over an in-memory snapshot image.
pub struct RdbFileReader {
    pub data: Vec<u8>,
    pub pos: usize,
}

impl RdbFileReader {
    pub fn new(data: Vec<u8>) -> (r: Self)
        ensures
            r.data@ == data@,
            r.pos == 0,
    {
        RdbFileReader { data, pos: 0 }
    }

    fn initialize(&mut self)
        ensures
            final(self).data@ == old(self).data@,
            final(self).pos == 0,
    {
        self.pos = 0;
    }

    fn read_byte(&mut self) -> (r: Option<u8>)
        ensures
            final(self).data@ == old(self).data@,
            (r is Some) <==> old(self).pos < old(self).data@.len(),
            r matches Some(v) ==> v == old(self).data@[old(self).pos as int] && final(self).pos
                == old(self).pos + 1,
            r is None ==> final(self).pos == old(self).pos,
    {
        if self.pos < self.data.len() {
            let v = self.data[self.pos];
            self.pos = self.pos + 1;
            Some(v)
        } else {
            None
        }
    }

    fn read_bytes(&mut self, count: usize) -> (r: Option<Vec<u8>>)
        ensures
            final(self).data@ == old(self).data@,
            (r is Some) <==> old(self).pos + count <= old(self).data@.len(),
            r matches Some(v) ==> v@ == old(self).data@.subrange(
                old(self).pos as int,
                old(self).pos + count,
            ) && final(self).pos == old(self).pos + count,
            r is None ==> final(self).pos == old(self).pos,
    {
        if self.pos > self.data.len() || count > self.data.len() - self.pos {
            return None;
        }
        let mut v: Vec<u8> = Vec::new();
        let mut i: usize = 0;
        while i < count
            invariant
                0 <= i <= count,
                self.pos + count <= self.data@.len(),
                self.data@.len() <= usize::MAX,
                v@ == self.data@.subrange(self.pos as int, self.pos + i),
            decreases count - i,
        {
            let b = self.data[self.pos + i];
            v.push(b);
            proof {
                assert(v@ =~= self.data@.subrange(self.pos as int, self.pos + i + 1));
            }
            i += 1;
        }
        self.pos = self.pos + count;
        Some(v)
    }

    /// The value of the next `count` bytes read as a little-endian integer.
    fn read_le(&mut self, count: usize) -> (r: Option<u128>)
        requires
            count <= 8,
        ensures
            final(self).data@ == old(self).data@,
            (r is Some) <==> old(self).pos + count <= old(self).data@.len(),
            r matches Some(v) ==> v == le_value(
                old(self).data@.subrange(old(self).pos as int, old(self).pos + count),
            ) && final(self).pos == old(self).pos + count,
            r is None ==> final(self).pos == old(self).pos,
    {
        if self.pos > self.data.len() || count > self.data.len() - self.pos {
            return None;
        }
        let ghost region = self.data@.subrange(self.pos as int, self.pos + count);
        let mut acc: u128 = 0;
        let mut j: usize = count;
        while j > 0
            invariant
                0 <= j <= count <= 8,
                self.pos + count <= self.data@.len(),
                self.data@.len() <= usize::MAX,
                region == self.data@.subrange(self.pos as int, self.pos + count),
                acc == le_value(region.subrange(j as int, count as int)),
                acc < pow256((count - j) as nat),
            decreases j,
        {
            let b = self.data[self.pos + j - 1];
            proof {
                lemma_pow256_le((count - j) as nat, 7);
                lemma_pow256_le((count - j + 1) as nat, 8);
                lemma_pow256_values();
                assert(acc * 256 + b < pow256((count - j + 1) as nat)) by (nonlinear_arith)
                    requires
                        acc < pow256((count - j) as nat),
                        b < 256,
                        pow256((count - j + 1) as nat) == 256 * pow256((count - j) as nat),
                ;
                assert(pow256(8) == 256 * pow256(7));
                assert(acc * 256 + b <= u128::MAX) by (nonlinear_arith)
                    requires
                        acc * 256 + b < pow256((count - j + 1) as nat),
                        pow256((count - j + 1) as nat) <= pow256(8),
                        pow256(8) <= u128::MAX,
                ;
                let tail = region.subrange(j - 1, count as int);
                assert(tail.drop_first() =~= region.subrange(j as int, count as int));
                assert(tail[0] == b);
            }
            acc = acc * 256 + b as u128;
            j -= 1;
        }
        proof {
            assert(region.subrange(0, count as int) =~= region);
        }
        self.pos = self.pos + count;
        Some(acc)
    }

    /// The size prefix at the cursor.
    fn read_size(&mut self) -> (r: Option<RdbSize>)
        ensures
            final(self).data@ == old(self).data@,
            (r is Some) <==> parse_size(old(self).data@, old(self).pos as int) is Some,
            r matches Some(sz) ==> parse_size(old(self).data@, old(self).pos as int) matches Some(
                (s2, p2),
            ) && sz == s2 && final(self).pos == p2,
    {
        let first = match self.read_byte() {
            Some(b) => b,
            None => {
                return None;
            },
        };
        let mode = first / 64;
        let low = first % 64;
        if mode == 0 {
            Some(RdbSize::Length(low as usize))
        } else if mode == 1 {
            match self.read_byte() {
                Some(second) => Some(RdbSize::Length((low as usize) * 256 + second as usize)),
                None => None,
            }
        } else if mode == 2 {
            match self.read_le(4) {
                Some(v) => {
                    let b1 = self.data[self.pos - 4];
                    let b2 = self.data[self.pos - 3];
                    let b3 = self.data[self.pos - 2];
                    let b4 = self.data[self.pos - 1];
                    let n = (((b1 as usize) * 256 + (b2 as usize)) * 256 + (b3 as usize)) * 256
                        + (b4 as usize);
                    Some(RdbSize::Length(n))
                },
                None => None,
            }
        } else {
            if low == 0 {
                Some(RdbSize::IntWidth(1))
            } else if low == 1 {
                Some(RdbSize::IntWidth(2))
            } else if low == 2 {
                Some(RdbSize::IntWidth(4))
            } else {
                None
            }
        }
    }

    /// The string at the cursor, as the grammar's `parse_string` gives it.
    fn read_string(&mut self) -> (r: Option<String>)
        ensures
            final(self).data@ == old(self).data@,
            (r is Some) <==> parse_string(old(self).data@, old(self).pos as int) is Some,
            r matches Some(s) ==> parse_string(old(self).data@, old(self).pos as int) matches Some(
                (cs, p2),
            ) && s@ == cs && final(self).pos == p2,
    {
        let ghost p0 = self.pos as int;
        let sz = match self.read_size() {
            Some(sz) => sz,
            None => {
                return None;
            },
        };
        match sz {
            RdbSize::Length(n) => {
                let bytes = match self.read_bytes(n) {
                    Some(bytes) => bytes,
                    None => {
                        return None;
                    },
                };
                convert_to_string(bytes.as_slice())
            },
            RdbSize::IntWidth(w) => {
                assert(w <= 8);
                match self.read_le(w) {
                    Some(v) => {
                        proof {
                            lemma_le_value_bound(
                                self.data@.subrange((self.pos - w) as int, self.pos as int),
                            );
                            lemma_pow256_values();
                            lemma_pow256_le(
                                self.data@.subrange(
                                    (self.pos - w) as int,
                                    self.pos as int,
                                ).len(),
                                4,
                            );
                        }
                        Some(usize_to_string(v as usize))
                    },
                    None => None,
                }
            },
        }
    }

    /// The 9-octet header, if present.
    fn header(&mut self) -> (r: Option<Vec<u8>>)
        ensures
            final(self).data@ == old(self).data@,
            (r is Some) <==> old(self).pos + 9 <= old(self).data@.len(),
            r is Some ==> final(self).pos == old(self).pos + 9,
            r is None ==> final(self).pos == old(self).pos,
    {
        self.read_bytes(9)
    }

    fn read_expiry_in_millis(&mut self) -> (r: Option<u128>)
        ensures
            final(self).data@ == old(self).data@,
            (r is Some) <==> old(self).pos + 8 <= old(self).data@.len(),
            r matches Some(v) ==> v == le_value(
                old(self).data@.subrange(old(self).pos as int, old(self).pos + 8),
            ) && final(self).pos == old(self).pos + 8,
            r is None ==> final(self).pos == old(self).pos,
    {
        self.read_le(8)
    }

    fn read_expiry_in_secs(&mut self) -> (r: Option<u128>)
        ensures
            final(self).data@ == old(self).data@,
            (r is Some) <==> old(self).pos + 4 <= old(self).data@.len(),
            r matches Some(v) ==> v == le_value(
                old(self).data@.subrange(old(self).pos as int, old(self).pos + 4),
            ) * 1000 && final(self).pos == old(self).pos + 4,
            r is None ==> final(self).pos == old(self).pos,
    {
        let ghost p0 = self.pos as int;
        match self.read_le(4) {
            Some(secs) => {
                proof {
                    lemma_le_value_bound(self.data@.subrange(p0, p0 + 4));
                    lemma_pow256_values();
                    assert(secs * 1000 <= u128::MAX) by (nonlinear_arith)
                        requires
                            secs < pow256(4),
                            pow256(4) * 1000 <= u128::MAX,
                    ;
                }
                Some(secs * 1000)
            },
            None => None,
        }
    }

    /// Every record of the image, in order: exactly what the grammar's
    /// `snapshot_records` gives.
    /// Every record of the image, in order: exactly what the grammar's
    /// `snapshot_records` gives.
    pub fn entries(&mut self) -> (r: Vec<Entry>)
        ensures
            final(self).data@ == old(self).data@,
            r@.map_values(|e: Entry| e@) == snapshot_records(old(self).data@),
    {
        let mut out: Vec<Entry> = Vec::new();
        self.initialize();
        if self.header().is_none() {
            proof {
                assert(out@.map_values(|e: Entry| e@) =~= snapshot_records(self.data@));
            }
            return out;
        }
        loop
            invariant_except_break
                self.pos <= self.data@.len(),
                snapshot_records(self.data@) == out@.map_values(|e: Entry| e@) + parse_records(
                    self.data@,
                    self.pos as int,
                ),
            invariant
                self.data@ == old(self).data@,
            ensures
                out@.map_values(|e: Entry| e@) == snapshot_records(self.data@),
            decreases self.data@.len() - self.pos,
        {
            match self.read_record() {
                RecordStep::Stop => {
                    break;
                },
                RecordStep::Skip => {},
                RecordStep::Item(e) => {
                    proof {
                        lemma_step_entry(
                            out@,
                            e,
                            parse_records(self.data@, self.pos as int),
                            snapshot_records(self.data@),
                        );
                    }
                    out.push(e);
                },
            }
        }
        out
    }

    /// One step of the body: the record at the cursor, a skipped
    /// non-entry record, or the point where parsing stops.
    #[verifier::rlimit(100)]
    fn read_record(&mut self) -> (r: RecordStep)
        requires
            old(self).pos <= old(self).data@.len(),
        ensures
            final(self).data@ == old(self).data@,
            r is Stop ==> parse_records(old(self).data@, old(self).pos as int) =~= Seq::<
                EntryModel,
            >::empty(),
            r is Skip ==> old(self).pos < final(self).pos <= old(self).data@.len()
                && parse_records(old(self).data@, old(self).pos as int) == parse_records(
                old(self).data@,
                final(self).pos as int,
            ),
            r matches RecordStep::Item(e) ==> old(self).pos < final(self).pos <= old(
                self,
            ).data@.len() && parse_records(old(self).data@, old(self).pos as int) == seq![e@]
                + parse_records(old(self).data@, final(self).pos as int),
    {
        let ghost p = self.pos as int;
        let tag = match self.read_byte() {
            Some(t) => t,
            None => {
                return RecordStep::Stop;
            },
        };
        if tag == 0xfa {
            if self.read_string().is_none() {
                return RecordStep::Stop;
            }
            if self.read_string().is_none() {
                return RecordStep::Stop;
            }
            RecordStep::Skip
        } else if tag == 0xfe {
            if self.read_byte().is_none() {
                return RecordStep::Stop;
            }
            RecordStep::Skip
        } else if tag == 0xfb {
            if self.read_size().is_none() {
                return RecordStep::Stop;
            }
            if self.read_size().is_none() {
                return RecordStep::Stop;
            }
            RecordStep::Skip
        } else if tag == 0x00 {
            let key = match self.read_string() {
                Some(k) => k,
                None => {
                    return RecordStep::Stop;
                },
            };
            let value = match self.read_string() {
                Some(v) => v,
                None => {
                    return RecordStep::Stop;
                },
            };
            RecordStep::Item(Entry { key, value, expiry: None })
        } else if tag == 0xfc {
            let ms = match self.read_expiry_in_millis() {
                Some(v) => v,
                None => {
                    return RecordStep::Stop;
                },
            };
            if self.read_byte().is_none() {
                return RecordStep::Stop;
            }
            let key = match self.read_string() {
                Some(k) => k,
                None => {
                    return RecordStep::Stop;
                },
            };
            let value = match self.read_string() {
                Some(v) => v,
                None => {
                    return RecordStep::Stop;
                },
            };
            RecordStep::Item(
                Entry { key, value, expiry: Some(Expiry { epoch: ms, unit: TimeUnit::Millisecond }) },
            )
        } else if tag == 0xfd {
            let ms = match self.read_expiry_in_secs() {
                Some(v) => v,
                None => {
                    return RecordStep::Stop;
                },
            };
            if self.read_byte().is_none() {
                return RecordStep::Stop;
            }
            let key = match self.read_string() {
                Some(k) => k,
                None => {
                    return RecordStep::Stop;
                },
            };
            let value = match self.read_string() {
                Some(v) => v,
                None => {
                    return RecordStep::Stop;
                },
            };
            RecordStep::Item(
                Entry { key, value, expiry: Some(Expiry { epoch: ms, unit: TimeUnit::Millisecond }) },
            )
        } else {
            // the terminator tag, or an unknown tag: parsing stops cleanly
            RecordStep::Stop
        }
    }
}

proof fn lemma_step_entry(out: Seq<Entry>, e: Entry, records: Seq<EntryModel>, total: Seq<EntryModel>)
    requires
        total == out.map_values(|x: Entry| x@) + (seq![e@] + records),
    ensures
        total == (out.push(e)).map_values(|x: Entry| x@) + records,
{
    assert((out.push(e)).map_values(|x: Entry| x@) =~= out.map_values(|x: Entry| x@).push(e@));
    assert(out.map_values(|x: Entry| x@).push(e@) + records =~= out.map_values(|x: Entry| x@) + (
    seq![e@] + records));
}

proof fn lemma_pow256_le(a: nat, b: nat)
    requires
        a <= b,
    ensures
        pow256(a) <= pow256(b),
    decreases b,
{
    if a < b {
        lemma_pow256_le(a, (b - 1) as nat);
        assert(pow256(b) == 256 * pow256((b - 1) as nat));
        assert(pow256((b - 1) as nat) <= 256 * pow256((b - 1) as nat)) by (nonlinear_arith)
            requires
                pow256((b - 1) as nat) >= 0,
        ;
    }
}

/// The keyspace after feeding it a sequence of records in order: a record
/// whose expiry instant is at or before `now_ms` is skipped, every other
/// record is inserted.
pub open spec fn apply_entries(
    m: Map<Seq<char>, EntryModel>,
    s: Seq<EntryModel>,
    now_ms: u128,
) -> Map<Seq<char>, EntryModel>
    decreases s.len(),
{
    if s.len() == 0 {
        m
    } else {
        let e = s[0];
        let m2 = if e.expiry matches Option::Some(x) && expiry_millis(x) <= now_ms {
            m
        } else {
            m.insert(e.key, e)
        };
        apply_entries(m2, s.drop_first(), now_ms)
    }
}

/// Whether the expiry instant is at or before `now_ms`.
fn expiry_at_or_before(x: &Expiry, now_ms: u128) -> (r: bool)
    ensures
        r == (expiry_millis(*x) <= now_ms),
{
    match x.unit {
        TimeUnit::Second => {
            if x.epoch > u128::MAX / 1000 {
                proof {
                    assert(x.epoch * 1000 > u128::MAX) by (nonlinear_arith)
                        requires
                            x.epoch > u128::MAX / 1000,
                    ;
                }
                false
            } else {
                proof {
                    assert(x.epoch * 1000 <= u128::MAX) by (nonlinear_arith)
                        requires
                            x.epoch <= u128::MAX / 1000,
                    ;
                }
                x.epoch * 1000 <= now_ms
            }
        },
        TimeUnit::Millisecond => x.epoch <= now_ms,
    }
}

/// Parse a snapshot image and insert each record into the keyspace, unless
/// its expiry instant is at or before `now_ms`.
#[verifier::loop_isolation(false)]
pub fn load<R: Repository>(data: Vec<u8>, repository: &mut R, now_ms: u128)
    requires
        old(repository).inv(),
    ensures
        final(repository).inv(),
        final(repository).store_map() == apply_entries(
            old(repository).store_map(),
            snapshot_records(data@),
            now_ms,
        ),
{
    let ghost all = snapshot_records(data@);
    let mut reader = RdbFileReader::new(data);
    let mut entries = reader.entries();
    let ghost m0 = repository.store_map();
    let mut i: usize = 0;
    let n = entries.len();
    proof {
        assert(entries@.map_values(|e: Entry| e@) == all);
        assert(all.len() == n);
        assert(all.subrange(0, n as int) =~= all);
    }
    while i < n
        invariant
            0 <= i <= n,
            n == all.len(),
            entries@.len() == n - i,
            repository.inv(),
            entries@.map_values(|e: Entry| e@) == all.subrange(i as int, n as int),
            apply_entries(m0, all, now_ms) == apply_entries(
                repository.store_map(),
                all.subrange(i as int, n as int),
                now_ms,
            ),
        decreases n - i,
    {
        let ghost pre = repository.store_map();
        let ghost rest = all.subrange(i as int, n as int);
        let e = entries.remove(0);
        proof {
            assert(rest[0] == e@);
            assert(rest.drop_first() =~= all.subrange(i + 1, n as int));
            assert(entries@.map_values(|x: Entry| x@) =~= all.subrange(i + 1, n as int));
        }
        let skip = match &e.expiry {
            Some(x) => expiry_at_or_before(x, now_ms),
            None => false,
        };
        if !skip {
            repository.set(e);
        }
        i += 1;
    }
    proof {
        assert(all.subrange(i as int, n as int) =~= Seq::<EntryModel>::empty());
    }
}

/// A key whose every record in the stream is expired at load time is
/// absent from the loaded keyspace, unless it was present before.
pub proof fn lemma_load_skips_expired(
    m: Map<Seq<char>, EntryModel>,
    s: Seq<EntryModel>,
    now_ms: u128,
    k: Seq<char>,
)
    requires
        !m.contains_key(k),
        forall|i: int|
            0 <= i < s.len() && (#[trigger] s[i]).key == k ==> (s[i].expiry matches Some(x)
                && expiry_millis(x) <= now_ms),
    ensures
        !apply_entries(m, s, now_ms).contains_key(k),
    decreases s.len(),
{
    if s.len() > 0 {
        let e = s[0];
        let m2 = if e.expiry matches Option::Some(x) && expiry_millis(x) <= now_ms {
            m
        } else {
            m.insert(e.key, e)
        };
        assert(forall|i: int|
            0 <= i < s.drop_first().len() && (#[trigger] s.drop_first()[i]).key == k ==> (
            s.drop_first()[i].expiry matches Some(x) && expiry_millis(x) <= now_ms));
        lemma_load_skips_expired(m2, s.drop_first(), now_ms, k);
    }
}

} // verus!
