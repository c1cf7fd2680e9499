//! Decoder for fixed-layout binary event payloads.
//!
//! A payload is a byte buffer holding one 32-byte slot per field, in a fixed
//! field order.  A `uint` slot carries an unsigned integer in its last 8
//! bytes (big-endian); an `address` slot carries a 20-byte address in its
//! last 20 bytes; a `string` slot carries a pointer to a length slot that is
//! followed by the string bytes.

use vstd::prelude::*;

verus! {

/// Value of a byte string read as a big-endian unsigned integer.
pub open spec fn be_bytes_val(bytes: Seq<u8>) -> nat
    decreases bytes.len(),
{
    if bytes.len() == 0 {
        0
    } else {
        be_bytes_val(bytes.drop_last()) * 256 + bytes.last() as nat
    }
}

/// Value of the 8 bytes at `start` read as a big-endian unsigned integer.
pub open spec fn be_u64_at(data: Seq<u8>, start: int) -> nat {
    be_bytes_val(data.subrange(start, start + 8))
}

/// 256 to the power `n`.
pub open spec fn pow256(n: nat) -> nat
    decreases n,
{
    if n == 0 {
        1
    } else {
        256 * pow256((n - 1) as nat)
    }
}

/// A big-endian value is bounded by 256 to the number of its bytes.
pub proof fn lemma_be_bytes_val_bound(bytes: Seq<u8>)
    ensures
        be_bytes_val(bytes) < pow256(bytes.len()),
    decreases bytes.len(),
{
    if bytes.len() > 0 {
        lemma_be_bytes_val_bound(bytes.drop_last());
    }
}

/// An 8-byte big-endian value fits in a `u64`.
pub proof fn lemma_be_u64_at_bound(data: Seq<u8>, start: int)
    requires
        0 <= start,
        start + 8 <= data.len(),
    ensures
        be_u64_at(data, start) < 0x1_0000_0000_0000_0000,
{
    lemma_be_bytes_val_bound(data.subrange(start, start + 8));
    assert(pow256(8) == 0x1_0000_0000_0000_0000) by {
        reveal_with_fuel(pow256, 9);
    };
}

/// Reads the 8 bytes at `start` as a big-endian `u64`.
pub fn read_be_u64(data: &Vec<u8>, start: usize) -> (r: u64)
    requires
        start + 8 <= data@.len(),
    ensures
        r == be_u64_at(data@, start as int),
{
    proof {
        lemma_be_u64_at_bound(data@, start as int);
    }
    let n: usize = data.len();
    let mut val: u64 = 0;
    let mut k: usize = 0;
    while k < 8
        invariant
            k <= 8,
            n == data@.len(),
            start + 8 <= n,
            val == be_bytes_val(data@.subrange(start as int, start + k)),
            val < pow256(k as nat),
        decreases 8 - k,
    {
        proof {
            assert(pow256(k as nat) * 256 == pow256((k + 1) as nat)) by {
                reveal_with_fuel(pow256, 2);
            };
            assert(pow256((k + 1) as nat) <= pow256(8)) by {
                lemma_pow256_monotone((k + 1) as nat, 8);
            };
            assert(pow256(8) == 0x1_0000_0000_0000_0000) by {
                reveal_with_fuel(pow256, 9);
            };
            assert(data@.subrange(start as int, start + k + 1).drop_last()
                =~= data@.subrange(start as int, start + k));
            assert(data@.subrange(start as int, start + k + 1).last() == data@[start + k]);
        }
        val = val * 256 + (data[start + k] as u64);
        k = k + 1;
    }
    proof {
        assert(data@.subrange(start as int, start + 8) =~= data@.subrange(
            start as int,
            start + k,
        ));
    }
    val
}

/// `pow256` is monotone in its exponent.
pub proof fn lemma_pow256_monotone(m: nat, n: nat)
    requires
        m <= n,
    ensures
        pow256(m) <= pow256(n),
    decreases n,
{
    if m < n {
        lemma_pow256_monotone(m, (n - 1) as nat);
        assert(pow256(n) == 256 * pow256((n - 1) as nat));
    }
}

/// The 32-byte `uint` slot whose interpreted value is `v`: 24 zero bytes of
/// padding followed by the 8 big-endian bytes of `v`.
pub open spec fn spec_uint_slot(v: u64) -> Seq<u8> {
    Seq::new(32, |i: int| if i < 24 {
        0u8
    } else {
        (v >> ((31 - i) * 8)) as u8
    })
}

/// Encodes `v` into a fresh 32-byte `uint` slot.
pub fn encode_uint_slot(v: u64) -> (r: Vec<u8>)
    ensures
        r@ =~= spec_uint_slot(v),
{
    let mut out: Vec<u8> = Vec::new();
    let mut i: usize = 0;
    while i < 24
        invariant
            i <= 24,
            out@.len() == i,
            forall|j: int| 0 <= j < i ==> out@[j] == spec_uint_slot(v)[j],
        decreases 24 - i,
    {
        out.push(0u8);
        i = i + 1;
    }
    let mut k: usize = 0;
    while k < 8
        invariant
            k <= 8,
            out@.len() == 24 + k,
            forall|j: int| 0 <= j < 24 + k ==> out@[j] == spec_uint_slot(v)[j],
        decreases 8 - k,
    {
        out.push((v >> ((7 - k) as u64 * 8)) as u8);
        k = k + 1;
    }
    out
}

/// Round trip on the interpreted 64-bit value: re-encoding a decoded `uint`
/// into the slot layout and reading it back yields the same value, and the
/// padding bytes of the encoded slot are all zero.
pub proof fn lemma_uint_slot_round_trip(v: u64)
    ensures
        be_u64_at(spec_uint_slot(v), 24) == v,
        forall|j: int| 0 <= j < 24 ==> spec_uint_slot(v)[j] == 0,
{
    let s: Seq<u8> = spec_uint_slot(v).subrange(24, 32);
    assert(s.len() == 8);
    assert(forall|i: int| 0 <= i < 8 ==> s[i] == (v >> ((7 - i) * 8)) as u8);
    let b0: u64 = (v >> 56) as u8 as u64;
    let b1: u64 = (v >> 48) as u8 as u64;
    let b2: u64 = (v >> 40) as u8 as u64;
    let b3: u64 = (v >> 32) as u8 as u64;
    let b4: u64 = (v >> 24) as u8 as u64;
    let b5: u64 = (v >> 16) as u8 as u64;
    let b6: u64 = (v >> 8) as u8 as u64;
    let b7: u64 = (v >> 0) as u8 as u64;
    assert(b0 < 256 && b1 < 256 && b2 < 256 && b3 < 256 && b4 < 256 && b5 < 256 && b6 < 256
        && b7 < 256);
    assert(((((((b0 * 256 + b1) * 256 + b2) * 256 + b3) * 256 + b4) * 256 + b5) * 256 + b6) * 256
        + b7 == v) by (bit_vector)
        requires
            b0 == (v >> 56) as u8 as u64,
            b1 == (v >> 48) as u8 as u64,
            b2 == (v >> 40) as u8 as u64,
            b3 == (v >> 32) as u8 as u64,
            b4 == (v >> 24) as u8 as u64,
            b5 == (v >> 16) as u8 as u64,
            b6 == (v >> 8) as u8 as u64,
            b7 == (v >> 0) as u8 as u64,
    ;
    assert(be_bytes_val(s) == v) by {
        reveal_with_fuel(be_bytes_val, 9);
        assert(s.drop_last() =~= s.subrange(0, 7));
        assert(s.subrange(0, 7).drop_last() =~= s.subrange(0, 6));
        assert(s.subrange(0, 6).drop_last() =~= s.subrange(0, 5));
        assert(s.subrange(0, 5).drop_last() =~= s.subrange(0, 4));
        assert(s.subrange(0, 4).drop_last() =~= s.subrange(0, 3));
        assert(s.subrange(0, 3).drop_last() =~= s.subrange(0, 2));
        assert(s.subrange(0, 2).drop_last() =~= s.subrange(0, 1));
        assert(s.subrange(0, 1).drop_last() =~= s.subrange(0, 0));
        assert(s[7] == b7 && s[6] == b6 && s[5] == b5 && s[4] == b4 && s[3] == b3 && s[2] == b2
            && s[1] == b1 && s[0] == b0);
    };
}

/// Declared type of a payload field.
#[derive(Clone, Copy, PartialEq, Eq, Structural, Debug)]
pub enum FieldType {
    Uint,
    Address,
    Str,
}

/// Errors of payload decoding.
#[derive(Clone, Copy, PartialEq, Eq, Structural, Debug)]
pub enum DecodeError {
    /// An offset computed from the payload lies outside the buffer.
    MalformedPayload,
    /// The accessor does not match the field's declared type.
    TypeMismatch,
    /// The field name was not in the declared order.
    UnknownField,
    /// A `uint` slot carries a value that needs more than 64 bits.
    NumericOverflow,
}

/// A field's name, declared type, and cached byte range into the payload.
pub struct FieldEntry {
    pub name: String,
    pub ftype: FieldType,
    pub start: usize,
    pub end: usize,
}

/// Ghost image of a `FieldEntry`: name, type, start, end.
pub type FieldEntryV = (Seq<char>, FieldType, int, int);

/// Decoder for one event payload: the raw bytes plus one cached byte range
/// per declared field, computed once at construction.
pub struct LogdataDeserializer {
    pub data: Vec<u8>,
    pub entries: Vec<FieldEntry>,
}

/// First declared type for `name` in the field list, scanning from index `j`.
pub open spec fn lookup_type_from(
    fields: Seq<(String, FieldType)>,
    name: Seq<char>,
    j: int,
) -> Option<FieldType>
    decreases fields.len() - j,
{
    if j < 0 || j >= fields.len() {
        None
    } else if fields[j].0@ == name {
        Some(fields[j].1)
    } else {
        lookup_type_from(fields, name, j + 1)
    }
}

/// Index of the first entry named `name`, scanning from index `j`; -1 if none.
pub open spec fn find_entry_from(es: Seq<FieldEntryV>, name: Seq<char>, j: int) -> int
    decreases es.len() - j,
{
    if j < 0 || j >= es.len() {
        -1
    } else if es[j].0 == name {
        j
    } else {
        find_entry_from(es, name, j + 1)
    }
}

/// The byte range that the `i`-th field's slot must carry under the fixed
/// 32-byte-per-field slot layout.
pub open spec fn entry_wf(data: Seq<u8>, i: int, e: FieldEntryV) -> bool {
    match e.1 {
        FieldType::Uint => e.2 == 32 * i + 24 && e.3 == 32 * i + 32,
        FieldType::Address => e.2 == 32 * i + 12 && e.3 == 32 * i + 32,
        FieldType::Str => {
            let p = be_u64_at(data, 32 * i + 24) as int;
            &&& p + 32 <= data.len()
            &&& e.2 == p + 32
            &&& e.3 == p + 32 + be_u64_at(data, p + 24)
            &&& e.3 <= data.len()
        },
    }
}

/// Entries for the first `k` fields of `order`, or the first error hit while
/// computing them: an order name missing from the field list is
/// `UnknownField`; a string pointer or length leading outside the buffer is
/// `MalformedPayload`.
pub open spec fn build_entries(
    data: Seq<u8>,
    fields: Seq<(String, FieldType)>,
    order: Seq<String>,
    k: int,
) -> Result<Seq<FieldEntryV>, DecodeError>
    decreases k,
{
    if k <= 0 {
        Ok(Seq::empty())
    } else {
        match build_entries(data, fields, order, k - 1) {
            Err(e) => Err(e),
            Ok(es) => {
                let name = order[k - 1]@;
                let c = 32 * (k - 1);
                match lookup_type_from(fields, name, 0) {
                    None => Err(DecodeError::UnknownField),
                    Some(FieldType::Uint) => Ok(es.push((name, FieldType::Uint, c + 24, c + 32))),
                    Some(FieldType::Address) => Ok(
                        es.push((name, FieldType::Address, c + 12, c + 32)),
                    ),
                    Some(FieldType::Str) => {
                        let p = be_u64_at(data, c + 24) as int;
                        if p + 32 > data.len() {
                            Err(DecodeError::MalformedPayload)
                        } else {
                            let l = be_u64_at(data, p + 24) as int;
                            if p + 32 + l > data.len() {
                                Err(DecodeError::MalformedPayload)
                            } else {
                                Ok(es.push((name, FieldType::Str, p + 32, p + 32 + l)))
                            }
                        }
                    },
                }
            },
        }
    }
}

/// Outcome of constructing a decoder: the cached entries, or the first error.
/// A payload shorter than 32 bytes per declared field is malformed.
pub open spec fn decoder_spec(
    data: Seq<u8>,
    fields: Seq<(String, FieldType)>,
    order: Seq<String>,
) -> Result<Seq<FieldEntryV>, DecodeError> {
    if data.len() < 32 * order.len() {
        Err(DecodeError::MalformedPayload)
    } else {
        build_entries(data, fields, order, order.len() as int)
    }
}

/// Once entry construction has failed for some prefix of the order, the
/// whole construction fails with that same error.
proof fn lemma_build_entries_err(
    data: Seq<u8>,
    fields: Seq<(String, FieldType)>,
    order: Seq<String>,
    k: int,
    e: DecodeError,
)
    requires
        32 * order.len() <= data.len(),
        0 <= k <= order.len(),
        build_entries(data, fields, order, k) == Err::<Seq<FieldEntryV>, DecodeError>(e),
    ensures
        decoder_spec(data, fields, order) == Err::<Seq<FieldEntryV>, DecodeError>(e),
    decreases order.len() - k,
{
    if k < order.len() {
        assert(build_entries(data, fields, order, k + 1) == Err::<Seq<FieldEntryV>, DecodeError>(
            e,
        ));
        lemma_build_entries_err(data, fields, order, k + 1, e);
    }
}

/// Copies the byte range `[start, end)` of `data` into a fresh vector.
fn copy_range(data: &Vec<u8>, start: usize, end: usize) -> (r: Vec<u8>)
    requires
        start <= end <= data@.len(),
    ensures
        r@ == data@.subrange(start as int, end as int),
{
    let mut out: Vec<u8> = Vec::new();
    let mut k: usize = 0;
    while k < end - start
        invariant
            start <= end <= data@.len(),
            k <= end - start,
            out@.len() == k,
            forall|t: int| 0 <= t < k ==> out@[t] == data@[start + t],
        decreases end - start - k,
    {
        out.push(data[start + k]);
        k = k + 1;
    }
    proof {
        assert(out@ =~= data@.subrange(start as int, end as int));
    }
    out
}

/// First declared type for `name` in the field list.
fn lookup_type(fields: &Vec<(String, FieldType)>, name: &String) -> (r: Option<FieldType>)
    ensures
        r == lookup_type_from(fields@, name@, 0),
{
    let mut j: usize = 0;
    while j < fields.len()
        invariant
            j <= fields@.len(),
            lookup_type_from(fields@, name@, 0) == lookup_type_from(fields@, name@, j as int),
        decreases fields@.len() - j,
    {
        if fields[j].0 == *name {
            return Some(fields[j].1);
        }
        j = j + 1;
    }
    None
}

impl LogdataDeserializer {
    /// Ghost image of the cached entries.
    pub open spec fn entries_view(&self) -> Seq<FieldEntryV> {
        self.entries@.map_values(
            |e: FieldEntry| (e.name@, e.ftype, e.start as int, e.end as int),
        )
    }

    /// Every cached byte range lies within the payload and matches the slot
    /// layout for its position and declared type.
    pub open spec fn wf(&self) -> bool {
        &&& self.data@.len() >= 32 * self.entries@.len()
        &&& forall|i: int|
            0 <= i < self.entries@.len() ==> entry_wf(self.data@, i, #[trigger] self.entries_view()[i])
    }

    /// Builds a decoder over `data`, caching a byte range for every field of
    /// `order` under the fixed 32-byte slot layout, with each field's type
    /// taken from the first matching name in `fields`.  Fails with the first
    /// error of `decoder_spec`: `UnknownField` for an order name missing
    /// from `fields`, `MalformedPayload` for a buffer too short for the
    /// slots or a string pointer or length leading outside it.
    pub fn new(data: Vec<u8>, fields: Vec<(String, FieldType)>, order: Vec<String>) -> (r: Result<
        LogdataDeserializer,
        DecodeError,
    >)
        ensures
            match r {
                Ok(d) => {
                    &&& decoder_spec(data@, fields@, order@) matches Ok(es) && es
                        == d.entries_view()
                    &&& d.data@ == data@
                    &&& d.entries@.len() == order@.len()
                    &&& d.wf()
                },
                Err(e) => decoder_spec(data@, fields@, order@) matches Err(e2) && e == e2,
            },
    {
        let n: usize = data.len();
        if order.len() > n / 32 {
            proof {
                vstd::arithmetic::div_mod::lemma_fundamental_div_mod(n as int, 32);
            }
            return Err(DecodeError::MalformedPayload);
        }
        proof {
            vstd::arithmetic::div_mod::lemma_fundamental_div_mod(n as int, 32);
        }
        let mut entries: Vec<FieldEntry> = Vec::new();
        let mut i: usize = 0;
        while i < order.len()
            invariant
                i <= order@.len(),
                n == data@.len(),
                32 * order@.len() <= n,
                entries@.len() == i,
                build_entries(data@, fields@, order@, i as int) matches Ok(es) && es
                    == entries@.map_values(
                    |e: FieldEntry| (e.name@, e.ftype, e.start as int, e.end as int),
                ),
                forall|j: int|
                    0 <= j < i ==> entry_wf(
                        data@,
                        j,
                        (
                            (#[trigger] entries@[j]).name@,
                            entries@[j].ftype,
                            entries@[j].start as int,
                            entries@[j].end as int,
                        ),
                    ),
            decreases order@.len() - i,
        {
            let ghost prev = entries@.map_values(
                |e: FieldEntry| (e.name@, e.ftype, e.start as int, e.end as int),
            );
            let name: &String = &order[i];
            let ftype_opt = lookup_type(&fields, name);
            let cursor: usize = 32 * i;
            assert(cursor + 32 <= n);
            let entry: FieldEntry = match ftype_opt {
                None => {
                    proof {
                        assert(build_entries(data@, fields@, order@, i + 1) == Err::<
                            Seq<FieldEntryV>,
                            DecodeError,
                        >(DecodeError::UnknownField));
                        lemma_build_entries_err(
                            data@,
                            fields@,
                            order@,
                            i + 1,
                            DecodeError::UnknownField,
                        );
                    }
                    return Err(DecodeError::UnknownField);
                },
                Some(FieldType::Uint) => FieldEntry {
                    name: name.clone(),
                    ftype: FieldType::Uint,
                    start: cursor + 24,
                    end: cursor + 32,
                },
                Some(FieldType::Address) => FieldEntry {
                    name: name.clone(),
                    ftype: FieldType::Address,
                    start: cursor + 12,
                    end: cursor + 32,
                },
                Some(FieldType::Str) => {
                    let p64: u64 = read_be_u64(&data, cursor + 24);
                    proof {
                        lemma_be_u64_at_bound(data@, cursor + 24);
                    }
                    if p64 > (n as u64) - 32 {
                        proof {
                            assert(build_entries(data@, fields@, order@, i + 1) == Err::<
                                Seq<FieldEntryV>,
                                DecodeError,
                            >(DecodeError::MalformedPayload));
                            lemma_build_entries_err(
                                data@,
                                fields@,
                                order@,
                                i + 1,
                                DecodeError::MalformedPayload,
                            );
                        }
                        return Err(DecodeError::MalformedPayload);
                    }
                    let p: usize = p64 as usize;
                    let l64: u64 = read_be_u64(&data, p + 24);
                    proof {
                        lemma_be_u64_at_bound(data@, p + 24);
                    }
                    if l64 > (n as u64) - (p as u64) - 32 {
                        proof {
                            assert(build_entries(data@, fields@, order@, i + 1) == Err::<
                                Seq<FieldEntryV>,
                                DecodeError,
                            >(DecodeError::MalformedPayload));
                            lemma_build_entries_err(
                                data@,
                                fields@,
                                order@,
                                i + 1,
                                DecodeError::MalformedPayload,
                            );
                        }
                        return Err(DecodeError::MalformedPayload);
                    }
                    let start: usize = p + 32;
                    let end: usize = start + (l64 as usize);
                    FieldEntry { name: name.clone(), ftype: FieldType::Str, start, end }
                },
            };
            entries.push(entry);
            proof {
                assert(entries@.map_values(
                    |e: FieldEntry| (e.name@, e.ftype, e.start as int, e.end as int),
                ) =~= prev.push(
                    (
                        entries@[i as int].name@,
                        entries@[i as int].ftype,
                        entries@[i as int].start as int,
                        entries@[i as int].end as int,
                    ),
                ));
            }
            i = i + 1;
        }
        let d = LogdataDeserializer { data, entries };
        Ok(d)
    }

    /// Index of the first cached entry named `name`.
    fn find_entry(&self, name: &String) -> (r: Option<usize>)
        ensures
            match r {
                Some(i) => i < self.entries@.len() && find_entry_from(
                    self.entries_view(),
                    name@,
                    0,
                ) == i as int,
                None => find_entry_from(self.entries_view(), name@, 0) == -1,
            },
    {
        let mut j: usize = 0;
        while j < self.entries.len()
            invariant
                j <= self.entries@.len(),
                find_entry_from(self.entries_view(), name@, 0) == find_entry_from(
                    self.entries_view(),
                    name@,
                    j as int,
                ),
            decreases self.entries@.len() - j,
        {
            if self.entries[j].name == *name {
                return Some(j);
            }
            j = j + 1;
        }
        None
    }

    /// Reads the field named `field_name` as an unsigned 64-bit integer.
    /// The field must be declared `uint`; the slot's 24 padding bytes must
    /// be zero, else the value needs more than 64 bits and the read fails
    /// with `NumericOverflow`.
    #[verifier::loop_isolation(false)]
    pub fn get_u64(&self, field_name: &str) -> (r: Result<u64, DecodeError>)
        requires
            self.wf(),
        ensures
            r == self.spec_get_u64(field_name@),
    {
        let name: String = field_name.to_owned();
        match self.find_entry(&name) {
            None => Err(DecodeError::UnknownField),
            Some(i) => {
                let start: usize = self.entries[i].start;
                match self.entries[i].ftype {
                    FieldType::Uint => {
                        assert(entry_wf(self.data@, i as int, self.entries_view()[i as int]));
                        let n: usize = self.data.len();
                        let c: usize = start - 24;
                        assert(c + 32 <= n);
                        let mut j: usize = 0;
                        while j < 24
                            invariant
                                j <= 24,
                                forall|t: int| c <= t < c + j ==> self.data@[t] == 0,
                            decreases 24 - j,
                        {
                            if *vstd::slice::slice_index_get(self.data.as_slice(), c + j) != 0u8 {
                                assert(self.data@[c + j] != 0);
                                return Err(DecodeError::NumericOverflow);
                            }
                            j = j + 1;
                        }
                        Ok(read_be_u64(&self.data, start))
                    },
                    FieldType::Address => Err(DecodeError::TypeMismatch),
                    FieldType::Str => Err(DecodeError::TypeMismatch),
                }
            },
        }
    }

    /// Reads the field named `field_name` as a 20-byte address: the last 20
    /// bytes of the field's 32-byte slot.  The field must be declared
    /// `address`.
    pub fn get_address(&self, field_name: &str) -> (r: Result<Vec<u8>, DecodeError>)
        requires
            self.wf(),
        ensures
            match r {
                Ok(v) => self.spec_get_address(field_name@) matches Ok(b) && b == v@ && v@.len()
                    == 20,
                Err(e) => self.spec_get_address(field_name@) matches Err(e2) && e == e2,
            },
    {
        let name: String = field_name.to_owned();
        match self.find_entry(&name) {
            None => Err(DecodeError::UnknownField),
            Some(i) => {
                let start: usize = self.entries[i].start;
                let end: usize = self.entries[i].end;
                match self.entries[i].ftype {
                    FieldType::Address => {
                        assert(entry_wf(self.data@, i as int, self.entries_view()[i as int]));
                        Ok(copy_range(&self.data, start, end))
                    },
                    FieldType::Uint => Err(DecodeError::TypeMismatch),
                    FieldType::Str => Err(DecodeError::TypeMismatch),
                }
            },
        }
    }

    /// Reads the field named `field_name` as string bytes: the bytes that
    /// follow the field's length slot, exactly as many as that slot
    /// declares.  The field must be declared `string`.
    pub fn get_str(&self, field_name: &str) -> (r: Result<Vec<u8>, DecodeError>)
        requires
            self.wf(),
        ensures
            match r {
                Ok(v) => self.spec_get_str(field_name@) matches Ok(b) && b == v@,
                Err(e) => self.spec_get_str(field_name@) matches Err(e2) && e == e2,
            },
    {
        let name: String = field_name.to_owned();
        match self.find_entry(&name) {
            None => Err(DecodeError::UnknownField),
            Some(i) => {
                let start: usize = self.entries[i].start;
                let end: usize = self.entries[i].end;
                match self.entries[i].ftype {
                    FieldType::Str => {
                        assert(entry_wf(self.data@, i as int, self.entries_view()[i as int]));
                        Ok(copy_range(&self.data, start, end))
                    },
                    FieldType::Uint => Err(DecodeError::TypeMismatch),
                    FieldType::Address => Err(DecodeError::TypeMismatch),
                }
            },
        }
    }

    /// Outcome of `get_u64` on this decoder.
    pub open spec fn spec_get_u64(&self, name: Seq<char>) -> Result<u64, DecodeError> {
        let es = self.entries_view();
        let i = find_entry_from(es, name, 0);
        if i < 0 {
            Err(DecodeError::UnknownField)
        } else if es[i].1 != FieldType::Uint {
            Err(DecodeError::TypeMismatch)
        } else if exists|j: int| es[i].2 - 24 <= j < es[i].2 && self.data@[j] != 0 {
            Err(DecodeError::NumericOverflow)
        } else {
            Ok(be_u64_at(self.data@, es[i].2) as u64)
        }
    }

    /// Outcome of `get_address` on this decoder.
    pub open spec fn spec_get_address(&self, name: Seq<char>) -> Result<Seq<u8>, DecodeError> {
        let es = self.entries_view();
        let i = find_entry_from(es, name, 0);
        if i < 0 {
            Err(DecodeError::UnknownField)
        } else if es[i].1 != FieldType::Address {
            Err(DecodeError::TypeMismatch)
        } else {
            Ok(self.data@.subrange(es[i].2, es[i].3))
        }
    }

    /// Outcome of `get_str` on this decoder.
    pub open spec fn spec_get_str(&self, name: Seq<char>) -> Result<Seq<u8>, DecodeError> {
        let es = self.entries_view();
        let i = find_entry_from(es, name, 0);
        if i < 0 {
            Err(DecodeError::UnknownField)
        } else if es[i].1 != FieldType::Str {
            Err(DecodeError::TypeMismatch)
        } else {
            Ok(self.data@.subrange(es[i].2, es[i].3))
        }
    }
}

/// A `string` field of a well-formed decoder decodes to exactly the number
/// of bytes its length slot declares, and those bytes lie inside the buffer.
pub proof fn lemma_string_field_length(d: &LogdataDeserializer, name: Seq<char>)
    requires
        d.wf(),
        ({
            let i = find_entry_from(d.entries_view(), name, 0);
            i >= 0 && d.entries_view()[i].1 == FieldType::Str
        }),
    ensures
        ({
            let i = find_entry_from(d.entries_view(), name, 0);
            let p = be_u64_at(d.data@, 32 * i + 24) as int;
            &&& d.spec_get_str(name) matches Ok(bytes) && bytes.len() == be_u64_at(
                d.data@,
                p + 24,
            )
            &&& p + 32 + be_u64_at(d.data@, p + 24) <= d.data@.len()
        }),
{
    let i = find_entry_from(d.entries_view(), name, 0);
    lemma_find_entry_in_range(d.entries_view(), name, 0);
    assert(entry_wf(d.data@, i, d.entries_view()[i]));
}

/// A successful entry search returns an index into the entry list.
pub proof fn lemma_find_entry_in_range(es: Seq<FieldEntryV>, name: Seq<char>, j: int)
    ensures
        find_entry_from(es, name, j) == -1 || (j <= find_entry_from(es, name, j) < es.len()
            && es[find_entry_from(es, name, j)].0 == name),
    decreases es.len() - j,
{
    if !(j < 0 || j >= es.len()) && es[j].0 != name {
        lemma_find_entry_in_range(es, name, j + 1);
    }
}

} // verus!
