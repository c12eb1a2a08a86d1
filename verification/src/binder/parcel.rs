//! Writing a parcel, for the services the broker answers itself, and reading
//! the arguments of the requests those services get.
//!
//! A reply is the AIDL status word and then the values, in the order the
//! generated proxy reads them: integers little-endian, booleans an int32,
//! strings a count then UTF-16 and a terminator padded to four bytes, a
//! parcelable a present-flag then its fields, and a binder object 24 bytes of
//! `flat_binder_object` followed by a 4-byte stability word.

use vstd::prelude::*;

use crate::octets::{get_le32, get_le64, le32, le64, lemma_le32_at, push_bytes, push_le32, push_le64, read_le32, read_le64};
use crate::text::{char_from_u32, string_of, utf16, utf16_units};

verus! {

/// A binder object's type word, from `Parcel::unflattenBinder`.
pub const BINDER_TYPE_BINDER: u32 = 0x73622a85;
/// A binder object that names a handle in the reader's own table.
pub const BINDER_TYPE_HANDLE: u32 = 0x73682a85;
/// A file descriptor object: `B_PACK_CHARS('f', 'd', '*', B_TYPE_LARGE)`.
pub const BINDER_TYPE_FD: u32 = 0x66642a85;

/// `Stability::Level`, written after every binder object.
pub const STABILITY_UNDECLARED: i32 = 0;
pub const STABILITY_SYSTEM: i32 = 12;
pub const STABILITY_VINTF: i32 = 63;

/// The transactions every binder object answers: a ping, and the question
/// of which interface it is.
pub const PING_TRANSACTION: u32 = 0x5f504e47;
pub const INTERFACE_TRANSACTION: u32 = 0x5f4e5446;

/// `Parcel::kNonNullParcelableFlag`: a parcelable that is present.
pub const PARCELABLE_PRESENT: i32 = 1;

/// Code units as little-endian byte pairs.
pub open spec fn le16_units(u: Seq<u16>) -> Seq<u8>
    decreases u.len(),
{
    if u.len() == 0 {
        seq![]
    } else {
        le16_units(u.drop_last()) + seq![(u.last() % 256) as u8, (u.last() / 256) as u8]
    }
}

/// Each unit is two bytes.
pub proof fn lemma_le16_units_len(u: Seq<u16>)
    ensures
        le16_units(u).len() == 2 * u.len(),
    decreases u.len(),
{
    if u.len() > 0 {
        lemma_le16_units_len(u.drop_last());
    }
}

/// `n` zero bytes.
pub open spec fn zeros(n: nat) -> Seq<u8> {
    Seq::new(n, |i: int| 0u8)
}

/// How many bytes bring `len` up to a multiple of four.
pub open spec fn pad4(len: int) -> nat {
    ((4 - len % 4) % 4) as nat
}

/// `b` followed by zeros up to a multiple of four.
pub open spec fn padded(b: Seq<u8>) -> Seq<u8> {
    b + zeros(pad4(b.len() as int))
}

/// A `String16` written after `before`: the unit count, the units, a
/// terminator, and padding to four bytes counted from the start of the parcel.
pub open spec fn string16_after(before: Seq<u8>, text: Seq<char>) -> Seq<u8> {
    padded(before + le32(utf16(text).len() as u32) + le16_units(utf16(text)) + seq![0u8, 0u8])
}

/// A flattened binder object: its type, flags of zero, the value, the cookie
/// and the stability word. Twenty-eight bytes.
pub open spec fn binder_object_bytes(kind: u32, value: u64, cookie: u64, stability: i32) -> Seq<u8> {
    le32(kind) + le32(0) + le64(value) + le64(cookie) + le32(stability as u32)
}

/// Append each unit, low byte first.
pub fn push_units_le(out: &mut Vec<u8>, units: &Vec<u16>)
    ensures
        final(out)@ == old(out)@ + le16_units(units@),
{
    let mut i: usize = 0;
    while i < units.len()
        invariant
            0 <= i <= units@.len(),
            out@ == old(out)@ + le16_units(units@.take(i as int)),
        decreases units@.len() - i,
    {
        let u = units[i];
        out.push((u % 256) as u8);
        out.push((u / 256) as u8);
        proof {
            let t = units@.take(i + 1);
            assert(t.drop_last() =~= units@.take(i as int));
            assert(t.last() == u);
        }
        i = i + 1;
    }
    assert(units@.take(units@.len() as int) =~= units@);
}

/// Append zeros until the length is a multiple of four.
pub fn pad_to_four(out: &mut Vec<u8>)
    ensures
        final(out)@ == padded(old(out)@),
{
    let n = (4 - out.len() % 4) % 4;
    let mut i: usize = 0;
    while i < n
        invariant
            0 <= i <= n,
            n == pad4(old(out)@.len() as int),
            out@ == old(out)@ + zeros(i as nat),
        decreases n - i,
    {
        out.push(0);
        i = i + 1;
        assert(out@ =~= old(out)@ + zeros(i as nat));
    }
}


/// The bytes an interface token is found by: its UTF-16 units, low byte first.
pub open spec fn token_bytes(descriptor: Seq<char>) -> Seq<u8> {
    le16_units(utf16(descriptor))
}

/// Whether `needle` sits in `data` at `i`.
pub open spec fn occurs_at(data: Seq<u8>, needle: Seq<u8>, i: int) -> bool {
    0 <= i && i + needle.len() <= data.len() && data.subrange(i, i + needle.len()) == needle
}

/// The first place at or after `from` where `needle` sits in `data`.
pub open spec fn first_occurrence(data: Seq<u8>, needle: Seq<u8>, from: int) -> Option<int>
    decreases data.len() + 1 - from,
{
    if from < 0 || from + needle.len() > data.len() {
        None
    } else if occurs_at(data, needle, from) {
        Some(from)
    } else {
        first_occurrence(data, needle, from + 1)
    }
}

proof fn lemma_first_occurrence_found(data: Seq<u8>, needle: Seq<u8>, from: int)
    requires
        from >= 0,
    ensures
        first_occurrence(data, needle, from) matches Some(i) ==> from <= i && occurs_at(data, needle, i),
        first_occurrence(data, needle, from) is None ==> forall|i: int| from <= i ==> !occurs_at(data, needle, i),
    decreases data.len() + 1 - from,
{
    if from + needle.len() > data.len() {
    } else if !occurs_at(data, needle, from) {
        lemma_first_occurrence_found(data, needle, from + 1);
    }
}

/// Whether `needle` sits in `data` at `i`.
fn matches_at(data: &[u8], needle: &[u8], i: usize) -> (r: bool)
    requires
        i + needle@.len() <= data@.len(),
    ensures
        r == occurs_at(data@, needle@, i as int),
{
    let _len = data.len();
    let mut j: usize = 0;
    while j < needle.len()
        invariant
            0 <= j <= needle@.len(),
            data@.len() <= usize::MAX,
            i + needle@.len() <= data@.len(),
            forall|k: int| 0 <= k < j ==> data@[i + k] == needle@[k],
        decreases needle@.len() - j,
    {
        if data[i + j] != needle[j] {
            assert(data@.subrange(i as int, i + needle@.len())[j as int] != needle@[j as int]);
            return false;
        }
        j = j + 1;
    }
    assert(data@.subrange(i as int, i + needle@.len()) =~= needle@);
    true
}

/// The first place `needle` sits in `data`.
fn find_bytes(data: &[u8], needle: &[u8]) -> (r: Option<usize>)
    ensures
        match r {
            Some(i) => first_occurrence(data@, needle@, 0) == Some(i as int),
            None => first_occurrence(data@, needle@, 0) is None,
        },
{
    let n = needle.len();
    if n > data.len() {
        return None;
    }
    if n == 0 {
        assert(data@.subrange(0, 0) =~= needle@);
        return Some(0);
    }
    let mut i: usize = 0;
    while i <= data.len() - n
        invariant
            n == needle@.len(),
            n >= 1,
            data@.len() <= usize::MAX,
            n <= data@.len(),
            0 <= i <= data@.len() - n + 1,
            first_occurrence(data@, needle@, 0) == first_occurrence(data@, needle@, i as int),
        decreases data@.len() + 1 - i,
    {
        if matches_at(data, needle, i) {
            return Some(i);
        }
        i = i + 1;
    }
    None
}

/// The bytes an interface token is found by.
fn token_needle(descriptor: &str) -> (needle: Vec<u8>)
    ensures
        needle@ == token_bytes(descriptor@),
{
    let units = utf16_units(descriptor);
    let mut needle: Vec<u8> = Vec::new();
    push_units_le(&mut needle, &units);
    assert(needle@ =~= token_bytes(descriptor@));
    needle
}

/// Whether a request carries this interface's token: the token's UTF-16
/// text appears somewhere in it.
pub fn carries_token(data: &[u8], descriptor: &str) -> (r: bool)
    ensures
        r == (token_bytes(descriptor@).len() > 0 && first_occurrence(data@, token_bytes(descriptor@), 0) is Some),
{
    let needle = token_needle(descriptor);
    if needle.len() == 0 {
        return false;
    }
    find_bytes(data, needle.as_slice()).is_some()
}

/// How long the token's text is, in bytes: the count word in front of it says,
/// when it is a plausible count; otherwise the token itself.
pub open spec fn token_text_len(data: Seq<u8>, needle: Seq<u8>, start: int) -> int {
    if start >= 4 {
        let count = get_le32(data, start - 4) as i32;
        if count > 0 && (count as int) * 2 <= data.len() {
            (count as int) * 2
        } else {
            needle.len() as int
        }
    } else {
        needle.len() as int
    }
}

/// The case the count word claims more text than the request holds after
/// the token: reading the terminator then runs off the end.
pub open spec fn args_after_overruns(data: Seq<u8>, needle: Seq<u8>) -> bool {
    match first_occurrence(data, needle, 0) {
        Some(start) => {
            let text_len = token_text_len(data, needle, start);
            text_len >= 2 && start + text_len > data.len()
        },
        None => false,
    }
}

/// Where the arguments begin: after the token's text, its terminator (unless
/// the count already covers it) and the padding to four bytes.
pub open spec fn args_offset(data: Seq<u8>, needle: Seq<u8>) -> Option<int> {
    match first_occurrence(data, needle, 0) {
        Some(start) => {
            let text_len = token_text_len(data, needle, start);
            let text_end = start + text_len;
            let terminated = text_len >= 2 && data[text_end - 2] == 0 && data[text_end - 1] == 0;
            Some(
                if terminated {
                    (text_end + 3) / 4 * 4
                } else {
                    (text_end + 5) / 4 * 4
                },
            )
        },
        None => None,
    }
}

/// The arguments of a request: what follows its interface token, or nothing
/// when the token is not there, when nothing follows it, or when its count
/// word claims more text than the request holds.
pub open spec fn args_after_bytes(data: Seq<u8>, needle: Seq<u8>) -> Seq<u8> {
    if args_after_overruns(data, needle) {
        Seq::empty()
    } else {
        args_following(data, needle)
    }
}

/// What follows the token's text, its terminator and padding.
pub open spec fn args_following(data: Seq<u8>, needle: Seq<u8>) -> Seq<u8> {
    match args_offset(data, needle) {
        Some(end) => if end >= data.len() {
            Seq::empty()
        } else {
            data.subrange(end, data.len() as int)
        },
        None => Seq::empty(),
    }
}

/// Whether the token's count word claims more text than the request holds,
/// so that finding the arguments after it would read past the end.
pub fn args_would_overrun(data: &[u8], descriptor: &str) -> (r: bool)
    requires
        descriptor@.len() > 0,
    ensures
        r == args_after_overruns(data@, token_bytes(descriptor@)),
{
    let needle = token_needle(descriptor);
    let ghost nd = needle@;
    proof {
        crate::text::lemma_utf16_nonempty(descriptor@);
        lemma_le16_units_len(utf16(descriptor@));
    }
    let start = match find_bytes(data, needle.as_slice()) {
        Some(at) => at,
        None => return false,
    };
    proof {
        lemma_first_occurrence_found(data@, nd, 0);
    }
    let text_len: usize = if start >= 4 {
        let count = read_le32(data, start - 4) as i32;
        if count > 0 && (count as usize) * 2 <= data.len() {
            (count as usize) * 2
        } else {
            needle.len()
        }
    } else {
        needle.len()
    };
    assert(text_len == token_text_len(data@, nd, start as int));
    text_len >= 2 && data.len() - start < text_len
}

/// Where the arguments start, found rather than counted: the token is located
/// by its own text, and the arguments begin after it. A request whose count
/// word claims more text than it holds has no arguments: a peer that sends
/// less than it promised must not take this side down.
pub fn args_after<'a>(data: &'a [u8], descriptor: &str) -> (r: &'a [u8])
    requires
        descriptor@.len() > 0,
    ensures
        r@ == args_after_bytes(data@, token_bytes(descriptor@)),
{
    let needle = token_needle(descriptor);
    let ghost nd = needle@;
    proof {
        crate::text::lemma_utf16_nonempty(descriptor@);
        lemma_le16_units_len(utf16(descriptor@));
    }
    let start = match find_bytes(data, needle.as_slice()) {
        Some(at) => at,
        None => return &[],
    };
    proof {
        lemma_first_occurrence_found(data@, nd, 0);
    }
    let text_len: usize = if start >= 4 {
        let count = read_le32(data, start - 4) as i32;
        if count > 0 && (count as usize) * 2 <= data.len() {
            (count as usize) * 2
        } else {
            needle.len()
        }
    } else {
        needle.len()
    };
    assert(text_len == token_text_len(data@, nd, start as int));
    if text_len >= 2 && data.len() - start < text_len {
        return &[];
    }
    let text_end = start + text_len;
    let terminated = text_len >= 2 && data[text_end - 2] == 0 && data[text_end - 1] == 0;
    let wide: u128 = if terminated {
        (text_end as u128 + 3) / 4 * 4
    } else {
        (text_end as u128 + 5) / 4 * 4
    };
    if wide >= data.len() as u128 {
        &[]
    } else {
        let end = wide as usize;
        &data[end..data.len()]
    }
}

/// The characters a string16's units decode to: a NUL unit is dropped and a
/// surrogate, which is not a character on its own, reads as `?`.
pub open spec fn unit_char(u: u16) -> char {
    if 0xD800 <= u <= 0xDFFF {
        '?'
    } else {
        u as char
    }
}

/// The characters of little-endian UTF-16 units, decoded one unit at a time.
pub open spec fn decode_units(b: Seq<u8>) -> Seq<char>
    decreases b.len(),
{
    if b.len() < 2 {
        seq![]
    } else {
        let u = (b[b.len() - 2] as int + 256 * (b[b.len() - 1] as int)) as u16;
        let rest = decode_units(b.subrange(0, b.len() - 2));
        if u == 0 {
            rest
        } else {
            rest.push(unit_char(u))
        }
    }
}

/// One call of a writer of [`Parcel`], with what it was given.
pub enum ParcelWrite {
    I32(i32),
    I64(i64),
    Boolean(bool),
    NoException,
    EmptyArray,
    ParcelablePresent,
    String16(Seq<char>),
    NullBinder,
    FdPlaceholder,
    HandleBinder(u32),
    Raw(Seq<u8>),
}

/// The bytes of a parcel after one writer call on a parcel holding `before`.
pub open spec fn after_write(before: Seq<u8>, w: ParcelWrite) -> Seq<u8> {
    match w {
        ParcelWrite::I32(v) => before + le32(v as u32),
        ParcelWrite::I64(v) => before + le64(v as u64),
        ParcelWrite::Boolean(v) => before + le32(if v { 1u32 } else { 0u32 }),
        ParcelWrite::NoException => before + le32(0),
        ParcelWrite::EmptyArray => before + le32(0),
        ParcelWrite::ParcelablePresent => before + le32(1),
        ParcelWrite::String16(t) => string16_after(before, t),
        ParcelWrite::NullBinder => before + binder_object_bytes(BINDER_TYPE_BINDER, 0, 0, STABILITY_UNDECLARED),
        ParcelWrite::FdPlaceholder => before + zeros(24),
        ParcelWrite::HandleBinder(h) => before + binder_object_bytes(BINDER_TYPE_HANDLE, h as u64, 0, STABILITY_SYSTEM),
        ParcelWrite::Raw(b) => before + b,
    }
}

/// The bytes of a new parcel after these writer calls, in order.
pub open spec fn after_writes(ws: Seq<ParcelWrite>) -> Seq<u8>
    decreases ws.len(),
{
    if ws.len() == 0 {
        Seq::empty()
    } else {
        after_write(after_writes(ws.drop_last()), ws.last())
    }
}

/// A writer call only adds bytes at the end: what the parcel held stays, in
/// place.
pub proof fn lemma_write_appends(before: Seq<u8>, w: ParcelWrite)
    ensures
        before.is_prefix_of(after_write(before, w)),
{
    let after = after_write(before, w);
    match w {
        ParcelWrite::String16(t) => {
            let inner = before + le32(utf16(t).len() as u32) + le16_units(utf16(t)) + seq![0u8, 0u8];
            assert(after =~= inner + zeros(pad4(inner.len() as int)));
            assert(after.subrange(0, before.len() as int) =~= before);
        },
        _ => {
            assert(after.subrange(0, before.len() as int) =~= before);
        },
    }
}

/// Written call by call, a parcel only grows at its end: the bytes after the
/// first `k` calls begin the bytes after all of them, so the finished parcel
/// holds every value in the order it was written.
pub proof fn lemma_writes_only_append(ws: Seq<ParcelWrite>, k: nat)
    requires
        k <= ws.len(),
    ensures
        after_writes(ws.take(k as int)).is_prefix_of(after_writes(ws)),
    decreases ws.len(),
{
    if k == ws.len() {
        assert(ws.take(k as int) =~= ws);
    } else {
        let rest = ws.drop_last();
        assert(rest.take(k as int) =~= ws.take(k as int));
        lemma_writes_only_append(rest, k);
        lemma_write_appends(after_writes(rest), ws.last());
        let a = after_writes(ws.take(k as int));
        let b = after_writes(rest);
        let c = after_writes(ws);
        assert(c.subrange(0, b.len() as int) =~= b);
        assert(c.subrange(0, a.len() as int) =~= b.subrange(0, a.len() as int));
    }
}

/// A parcel being written.
pub struct Parcel {
    bytes: Vec<u8>,
}

impl View for Parcel {
    type V = Seq<u8>;

    closed spec fn view(&self) -> Seq<u8> {
        self.bytes@
    }
}

impl Parcel {
    pub fn new() -> (p: Self)
        ensures
            p@ == Seq::<u8>::empty(),
    {
        Parcel { bytes: Vec::new() }
    }

    pub fn i32(&mut self, value: i32)
        ensures
            final(self)@ == old(self)@ + le32(value as u32),
            final(self)@ == after_write(old(self)@, ParcelWrite::I32(value)),
    {
        push_le32(&mut self.bytes, value as u32);
    }

    pub fn i64(&mut self, value: i64)
        ensures
            final(self)@ == old(self)@ + le64(value as u64),
            final(self)@ == after_write(old(self)@, ParcelWrite::I64(value)),
    {
        push_le64(&mut self.bytes, value as u64);
    }

    /// A boolean, which a parcel writes as an int32.
    pub fn boolean(&mut self, value: bool)
        ensures
            final(self)@ == old(self)@ + le32(if value { 1u32 } else { 0u32 }),
            final(self)@ == after_write(old(self)@, ParcelWrite::Boolean(value)),
    {
        self.i32(if value { 1 } else { 0 });
    }

    /// The exception code that means "no exception". Everything else follows it.
    pub fn ok(&mut self)
        ensures
            final(self)@ == old(self)@ + le32(0),
            final(self)@ == after_write(old(self)@, ParcelWrite::NoException),
    {
        self.i32(0);
    }

    /// An array of nothing: a count of zero.
    pub fn empty_array(&mut self)
        ensures
            final(self)@ == old(self)@ + le32(0),
            final(self)@ == after_write(old(self)@, ParcelWrite::EmptyArray),
    {
        self.i32(0);
    }

    /// A parcelable that is present: the AIDL flag, then its fields.
    pub fn parcelable_present(&mut self)
        ensures
            final(self)@ == old(self)@ + le32(1),
            final(self)@ == after_write(old(self)@, ParcelWrite::ParcelablePresent),
    {
        self.i32(PARCELABLE_PRESENT);
    }

    /// A `String16`: the unit count, the units, a terminator, and padding to
    /// four bytes.
    pub fn string16(&mut self, text: &str)
        ensures
            final(self)@ == string16_after(old(self)@, text@),
            final(self)@ == after_write(old(self)@, ParcelWrite::String16(text@)),
    {
        let units = utf16_units(text);
        push_le32(&mut self.bytes, units.len() as u32);
        push_units_le(&mut self.bytes, &units);
        self.bytes.push(0);
        self.bytes.push(0);
        pad_to_four(&mut self.bytes);
    }

    /// A binder object that is not there: `BINDER_TYPE_BINDER` with both
    /// pointers zero, then the stability word a null must carry.
    pub fn null_binder(&mut self)
        ensures
            final(self)@ == old(self)@ + binder_object_bytes(BINDER_TYPE_BINDER, 0, 0, STABILITY_UNDECLARED),
            final(self)@ == after_write(old(self)@, ParcelWrite::NullBinder),
    {
        self.binder_object(BINDER_TYPE_BINDER, 0, 0, STABILITY_UNDECLARED);
    }

    /// A place for a descriptor word: 24 zero bytes, which the side holding
    /// the descriptor fills in. Returns where the word begins.
    pub fn fd_placeholder(&mut self) -> (offset: u32)
        requires
            old(self)@.len() <= u32::MAX,
        ensures
            final(self)@ == old(self)@ + zeros(24),
            final(self)@ == after_write(old(self)@, ParcelWrite::FdPlaceholder),
            offset == old(self)@.len(),
    {
        let offset = self.bytes.len() as u32;
        let mut i: usize = 0;
        while i < 24
            invariant
                0 <= i <= 24,
                self.bytes@ == old(self)@ + zeros(i as nat),
            decreases 24 - i,
        {
            self.bytes.push(0);
            i = i + 1;
            assert(self.bytes@ =~= old(self)@ + zeros(i as nat));
        }
        offset
    }

    /// A handle to an object, as the shim hands out for the objects the broker
    /// hosts. Returns where the object word begins.
    pub fn handle_binder(&mut self, handle: u32) -> (offset: u32)
        requires
            old(self)@.len() <= u32::MAX,
        ensures
            final(self)@ == old(self)@ + binder_object_bytes(BINDER_TYPE_HANDLE, handle as u64, 0, STABILITY_SYSTEM),
            final(self)@ == after_write(old(self)@, ParcelWrite::HandleBinder(handle)),
            offset == old(self)@.len(),
    {
        let offset = self.bytes.len() as u32;
        self.binder_object(BINDER_TYPE_HANDLE, handle as u64, 0, STABILITY_SYSTEM);
        offset
    }

    fn binder_object(&mut self, kind: u32, value: u64, cookie: u64, stability: i32)
        ensures
            final(self)@ == old(self)@ + binder_object_bytes(kind, value, cookie, stability),
    {
        self.i32(kind as i32);
        self.i32(0);
        self.i64(value as i64);
        self.i64(cookie as i64);
        self.i32(stability);
        proof {
            assert((kind as i32) as u32 == kind) by (bit_vector);
            assert((value as i64) as u64 == value) by (bit_vector);
            assert((cookie as i64) as u64 == cookie) by (bit_vector);
            assert(self@ =~= old(self)@ + binder_object_bytes(kind, value, cookie, stability));
        }
    }

    /// Raw bytes, for a value built elsewhere and copied in whole.
    pub fn raw(&mut self, bytes: &[u8])
        ensures
            final(self)@ == old(self)@ + bytes@,
            final(self)@ == after_write(old(self)@, ParcelWrite::Raw(bytes@)),
    {
        push_bytes(&mut self.bytes, bytes);
    }

    pub fn into_bytes(self) -> (b: Vec<u8>)
        ensures
            b@ == self@,
    {
        self.bytes
    }
}

/// Characters a descriptor is spelt with: printable ASCII.
pub open spec fn printable(s: Seq<char>) -> bool {
    forall|i: int| 0 <= i < s.len() ==> 0x20 <= #[trigger] (s[i] as u32) <= 0x7e
}

/// Printable ASCII is one UTF-16 unit a character, of the same value.
proof fn lemma_utf16_printable(s: Seq<char>)
    requires
        printable(s),
    ensures
        utf16(s).len() == s.len(),
        forall|i: int| 0 <= i < s.len() ==> #[trigger] utf16(s)[i] == s[i] as u32,
    decreases s.len(),
{
    if s.len() > 0 {
        let init = s.drop_last();
        assert forall|i: int| 0 <= i < init.len() implies 0x20 <= #[trigger] (init[i] as u32) <= 0x7e by {
            assert(init[i] == s[i]);
        }
        lemma_utf16_printable(init);
        assert(0x20 <= (s[s.len() - 1] as u32) <= 0x7e);
        assert forall|i: int| 0 <= i < s.len() implies #[trigger] utf16(s)[i] == s[i] as u32 by {
            if i < init.len() {
                assert(init[i] == s[i]);
            }
        }
    }
}

/// Unit `i` is bytes `2i` and `2i + 1`, low byte first.
proof fn lemma_le16_units_at(u: Seq<u16>)
    ensures
        le16_units(u).len() == 2 * u.len(),
        forall|i: int|
            0 <= i < u.len() ==> le16_units(u)[2 * i] == (#[trigger] u[i] % 256) as u8 && le16_units(u)[2 * i + 1] == (
            u[i] / 256) as u8,
    decreases u.len(),
{
    if u.len() > 0 {
        let init = u.drop_last();
        lemma_le16_units_at(init);
        assert forall|i: int| 0 <= i < u.len() implies le16_units(u)[2 * i] == (#[trigger] u[i] % 256) as u8
            && le16_units(u)[2 * i + 1] == (u[i] / 256) as u8 by {
            if i < init.len() {
                assert(init[i] == u[i]);
            }
        }
    }
}

/// A needle found at `at`, and nowhere from `from` up to it, is first found
/// there.
proof fn lemma_first_occurrence_is(data: Seq<u8>, needle: Seq<u8>, from: int, at: int)
    requires
        0 <= from <= at,
        forall|p: int| from <= p < at ==> !#[trigger] occurs_at(data, needle, p),
        occurs_at(data, needle, at),
    ensures
        first_occurrence(data, needle, from) == Some(at),
    decreases at - from,
{
    if from < at {
        lemma_first_occurrence_is(data, needle, from + 1, at);
    }
}

/// A token of printable UTF-16 text is not found in the first sixteen bytes
/// of a Java call: the header holds no character followed by a zero byte,
/// and a count below `0x20_0000` holds no two.
proof fn lemma_token_not_in_head(d: Seq<u8>, t: Seq<u8>, count: u32)
    requires
        d.len() >= 18,
        t.len() >= 2,
        !count_reads_as_text(count),
        t.len() % 2 == 0,
        t.len() == 2 ==> count <= 2,
        t.len() == 4 ==> count <= 3,
        0x20 <= t[0] <= 0x7e,
        t[1] == 0,
        t.len() >= 4 ==> 0x20 <= t[2] <= 0x7e && t[3] == 0,
        t.len() >= 6 ==> 0x20 <= t[4] <= 0x7e && t[5] == 0,
        count >= 1,
        d[0] == 0 && d[1] == 0 && d[2] == 0 && d[3] == 0x80,
        d[4] == 0xff && d[5] == 0xff && d[6] == 0xff && d[7] == 0xff,
        d[8] == 0x54 && d[9] == 0x53 && d[10] == 0x59 && d[11] == 0x53,
        d[12] == (count & 0xff) as u8,
        d[13] == ((count >> 8u32) & 0xff) as u8,
        d[14] == ((count >> 16u32) & 0xff) as u8,
        d[15] == ((count >> 24u32) & 0xff) as u8,
        d[16] == t[0],
    ensures
        forall|p: int| 0 <= p < 16 ==> !#[trigger] occurs_at(d, t, p),
{
    let b0 = (count & 0xff) as u8;
    let b1 = ((count >> 8u32) & 0xff) as u8;
    let b2 = ((count >> 16u32) & 0xff) as u8;
    let b3 = ((count >> 24u32) & 0xff) as u8;
    assert(b3 == 0 ==> b2 < 0x20 || b2 > 0x7e) by (bit_vector)
        requires
            !(0x20_0000 <= count && count < 0x7f_0000),
            b2 == ((count >> 16u32) & 0xff) as u8,
            b3 == ((count >> 24u32) & 0xff) as u8,
    ;
    assert(count <= 3 ==> b1 == 0 && b0 as u32 == count) by (bit_vector)
        requires
            b0 == (count & 0xff) as u8,
            b1 == ((count >> 8u32) & 0xff) as u8,
    ;
    assert forall|p: int| 0 <= p < 16 implies !#[trigger] occurs_at(d, t, p) by {
        if occurs_at(d, t, p) {
            let w = d.subrange(p, p + t.len());
            assert(w[0] == d[p] && w[1] == d[p + 1]);
            if t.len() >= 4 {
                assert(w[2] == d[p + 2] && w[3] == d[p + 3]);
            }
            if t.len() >= 6 {
                assert(w[4] == d[p + 4] && w[5] == d[p + 5]);
            }
        }
    }
}

/// A count word whose bytes could be read as the start of a token's text:
/// its third byte a printable character and its fourth zero.
pub open spec fn count_reads_as_text(count: u32) -> bool {
    0x20_0000 <= count < 0x7f_0000
}

/// A Java call whose descriptor is preceded by the count word `count`.
pub open spec fn java_call_counted(descriptor: Seq<char>, count: u32, args: Seq<u8>) -> Seq<u8> {
    padded(java_header() + le32(count) + le16_units(utf16(descriptor)) + seq![0u8, 0u8]) + args
}

/// The arguments found in a Java call are the arguments it was built with,
/// whether the count word in front of the descriptor counts its terminator
/// (as [`java_call`] writes it) or not. The descriptor is printable ASCII,
/// and its count is not one whose bytes could be taken for the start of its
/// text, which only a count from `0x20_0000` to `0x7e_ffff` can be.
#[verifier::rlimit(60)]
pub proof fn lemma_args_after_java_call(descriptor: Seq<char>, count: u32, args: Seq<u8>)
    requires
        descriptor.len() > 0,
        printable(descriptor),
        !count_reads_as_text(count),
        count == descriptor.len() || count == descriptor.len() + 1,
    ensures
        java_call_bytes(descriptor, args) == java_call_counted(descriptor, (descriptor.len() + 1) as u32, args),
        !args_after_overruns(java_call_counted(descriptor, count, args), token_bytes(descriptor)),
        args_after_bytes(java_call_counted(descriptor, count, args), token_bytes(descriptor)) == args,
{
    let n = descriptor.len() as int;
    lemma_utf16_printable(descriptor);
    let u = utf16(descriptor);
    lemma_le16_units_at(u);
    let t = token_bytes(descriptor);
    assert(t.len() == 2 * n);
    assert forall|i: int| 0 <= i < n implies 0x20 <= #[trigger] t[2 * i] <= 0x7e && t[2 * i + 1] == 0 by {
        assert(u[i] == descriptor[i] as u32);
        assert(0x20 <= (descriptor[i] as u32) <= 0x7e);
    }
    let head = java_header() + le32(count);
    let inner = head + t + seq![0u8, 0u8];
    let d = java_call_counted(descriptor, count, args);
    let pad = pad4(inner.len() as int);
    assert(d =~= inner + zeros(pad) + args);
    assert(head.len() == 16);
    assert(inner.len() == 18 + 2 * n);
    assert forall|k: int| 0 <= k < 16 implies #[trigger] d[k] == head[k] by {}
    assert forall|k: int| 0 <= k < 2 * n implies #[trigger] d[16 + k] == t[k] by {}
    assert(d[16 + 2 * n] == 0 && d[17 + 2 * n] == 0);
    assert(0x20 <= t[2 * 0int] <= 0x7e && t[2 * 0int + 1] == 0);
    if n >= 2 {
        assert(0x20 <= t[2 * 1int] <= 0x7e && t[2 * 1int + 1] == 0);
    }
    if n >= 3 {
        assert(0x20 <= t[2 * 2int] <= 0x7e && t[2 * 2int + 1] == 0);
    }
    assert(d[0] == 0 && d[1] == 0 && d[2] == 0 && d[3] == 0x80);
    assert(d[4] == 0xff && d[5] == 0xff && d[6] == 0xff && d[7] == 0xff);
    assert(d[8] == 0x54 && d[9] == 0x53 && d[10] == 0x59 && d[11] == 0x53);
    assert(d[12] == (count & 0xff) as u8 && d[13] == ((count >> 8u32) & 0xff) as u8);
    assert(d[14] == ((count >> 16u32) & 0xff) as u8 && d[15] == ((count >> 24u32) & 0xff) as u8);
    assert(d[16] == t[0]);
    lemma_token_not_in_head(d, t, count);
    assert(d.subrange(16, 16 + t.len() as int) =~= t);
    lemma_first_occurrence_is(d, t, 0, 16);
    lemma_le32_at(java_header(), count, t + seq![0u8, 0u8] + zeros(pad) + args);
    assert(java_header() + le32(count) + (t + seq![0u8, 0u8] + zeros(pad) + args) =~= d);
    assert(get_le32(d, 12) == count);
    if count < 0x8000_0000 {
        assert(token_text_len(d, t, 16) == 2 * count);
        if count == n {
            assert(d[14 + 2 * n] == t[2 * (n - 1)]);
        }
    } else {
        assert((count as i32) < 0) by (bit_vector)
            requires
                count >= 0x8000_0000,
        ;
        assert(token_text_len(d, t, 16) == 2 * n);
        assert(d[14 + 2 * n] == t[2 * (n - 1)]);
    }
    let end = (21 + 2 * n) / 4 * 4;
    assert(args_offset(d, t) == Some(end));
    assert(end == inner.len() + pad);
    if end >= d.len() {
        assert(args =~= Seq::<u8>::empty());
    } else {
        assert(d.subrange(end, d.len() as int) =~= args);
    }
    assert(java_call_bytes(descriptor, args) =~= java_call_counted(descriptor, (descriptor.len() + 1) as u32, args));
}

/// The twelve bytes a Java `Parcel` begins a call with: two words of its own
/// and the `TSYS` marker.
pub open spec fn java_header() -> Seq<u8> {
    seq![0x00u8, 0x00, 0x00, 0x80, 0xff, 0xff, 0xff, 0xff, 0x54, 0x53, 0x59, 0x53]
}

/// A Java AIDL call's parcel: the header, then the interface descriptor as a
/// count of UTF-16 units including its terminator, the units, the
/// terminator and padding to four, then the arguments.
pub open spec fn java_call_bytes(descriptor: Seq<char>, args: Seq<u8>) -> Seq<u8> {
    padded(
        java_header() + le32(((utf16(descriptor).len() as u32) + 1) as u32) + le16_units(utf16(descriptor)) + seq![
            0u8,
            0u8,
        ],
    ) + args
}

/// The parcel a Java receiver's `onTransact` accepts: the header a Java
/// `Parcel` begins with, the descriptor, then the arguments.
pub fn java_call(descriptor: &str, args: &[u8]) -> (data: Vec<u8>)
    ensures
        data@ == java_call_bytes(descriptor@, args@),
{
    let mut out: Vec<u8> = Vec::new();
    push_bytes(&mut out, &[0x00, 0x00, 0x00, 0x80, 0xff, 0xff, 0xff, 0xff, 0x54, 0x53, 0x59, 0x53]);
    assert(out@ =~= java_header());
    let units = utf16_units(descriptor);
    let n: u32 = units.len() as u32;
    let count: u32 = n.wrapping_add(1);
    assert(count == (n + 1) as u32) by (bit_vector)
        requires
            count == (if n + 1 > u32::MAX { (n + 1 - 0x1_0000_0000) as u32 } else { (n + 1) as u32 }),
    ;
    push_le32(&mut out, count);
    push_units_le(&mut out, &units);
    out.push(0);
    out.push(0);
    pad_to_four(&mut out);
    push_bytes(&mut out, args);
    assert(out@ =~= java_call_bytes(descriptor@, args@));
    out
}


/// Where a position lands that may run past the end: past the end it is held
/// at the end, where every read finds nothing just as it would further on.
pub open spec fn held(d: Seq<u8>, at: int) -> int {
    if at > d.len() {
        d.len() as int
    } else {
        at
    }
}

/// Reading an int32 at `at`: the value and where the next read starts. A
/// short buffer reads as zero and consumes nothing.
pub open spec fn step_i32(d: Seq<u8>, at: int) -> (i32, int) {
    if at + 4 <= d.len() {
        (get_le32(d, at) as i32, at + 4)
    } else {
        (0, at)
    }
}

/// Reading an int64 at `at`.
pub open spec fn step_i64(d: Seq<u8>, at: int) -> (i64, int) {
    if at + 8 <= d.len() {
        (get_le64(d, at) as i64, at + 8)
    } else {
        (0, at)
    }
}

/// Reading one byte at `at`.
pub open spec fn step_i8(d: Seq<u8>, at: int) -> (i8, int) {
    if at + 1 <= d.len() {
        (d[at] as i8, at + 1)
    } else {
        (0, at)
    }
}

/// Taking `count` bytes at `at`: all of them, or none when fewer are left.
pub open spec fn step_take(d: Seq<u8>, at: int, count: int) -> (Seq<u8>, int) {
    if at + count > d.len() {
        (Seq::empty(), at)
    } else {
        (d.subrange(at, at + count), at + count)
    }
}

/// Reading a string16 at `at`: the count, the units, then the position moves
/// past the terminator and up to four. A count below zero is the null string.
pub open spec fn step_string(d: Seq<u8>, at: int) -> (Option<Seq<char>>, int) {
    let (count, a1) = step_i32(d, at);
    if count < 0 {
        (None, a1)
    } else {
        let (units, a2) = step_take(d, a1, (count as int) * 2);
        (Some(decode_units(units)), held(d, (a2 + 5) / 4 * 4))
    }
}

/// `String::from_utf8_lossy`: the text of UTF-8 bytes, with every invalid
/// sequence replaced by U+FFFD.
pub uninterp spec fn lossy_utf8(b: Seq<u8>) -> Seq<char>;

/// `String::from_utf8_lossy`, owned.
///
/// std documents that valid UTF-8 comes back unchanged; what an invalid
/// sequence becomes is left to the name.
#[verifier::external_body]
pub(crate) fn utf8_lossy(b: &[u8]) -> (s: String)
    ensures
        s@ == lossy_utf8(b@),
        vstd::utf8::valid_utf8(b@) ==> s@ == vstd::utf8::decode_utf8(b@),
{
    String::from_utf8_lossy(b).into_owned()
}

/// Reading a `String8` at `at`: a byte length, the bytes, their terminator,
/// then up to four.
pub open spec fn step_string8(d: Seq<u8>, at: int) -> (Option<Seq<char>>, int) {
    let (len, a1) = step_i32(d, at);
    if len < 0 {
        (None, a1)
    } else {
        let (bytes, a2) = step_take(d, a1, len as int);
        let (_, a3) = step_take(d, a2, 1);
        (Some(lossy_utf8(bytes)), held(d, (a3 + 3) / 4 * 4))
    }
}

/// `n` int64s read one after another from `at`.
pub open spec fn steps_i64(d: Seq<u8>, at: int, n: nat) -> (Seq<i64>, int)
    decreases n,
{
    if n == 0 {
        (seq![], at)
    } else {
        let (vs, a) = steps_i64(d, at, (n - 1) as nat);
        let (v, a2) = step_i64(d, a);
        (vs.push(v), a2)
    }
}

/// `n` int32s read one after another from `at`.
pub open spec fn steps_i32(d: Seq<u8>, at: int, n: nat) -> (Seq<i32>, int)
    decreases n,
{
    if n == 0 {
        (seq![], at)
    } else {
        let (vs, a) = steps_i32(d, at, (n - 1) as nat);
        let (v, a2) = step_i32(d, a);
        (vs.push(v), a2)
    }
}

/// `n` string16s read one after another from `at`, the null ones left out.
pub open spec fn steps_string(d: Seq<u8>, at: int, n: nat) -> (Seq<Seq<char>>, int)
    decreases n,
{
    if n == 0 {
        (seq![], at)
    } else {
        let (vs, a) = steps_string(d, at, (n - 1) as nat);
        let (v, a2) = step_string(d, a);
        (
            match v {
                Some(t) => vs.push(t),
                None => vs,
            },
            a2,
        )
    }
}

/// Reading the arguments of a request, field by field in declaration order.
///
/// A short buffer reads as zero rather than failing, because a peer that
/// sends less than it promised must not be able to take this side down.
pub struct Reader<'a> {
    data: &'a [u8],
    at: usize,
}

impl<'a> Reader<'a> {
    /// The bytes being read.
    pub closed spec fn data(&self) -> Seq<u8> {
        self.data@
    }

    /// Where the next read starts.
    pub closed spec fn pos(&self) -> int {
        self.at as int
    }

    /// The position never leaves the data.
    #[verifier::type_invariant]
    closed spec fn inside(&self) -> bool {
        self.at <= self.data@.len()
    }

    pub fn new(data: &'a [u8]) -> (r: Self)
        ensures
            r.data() == data@,
            r.pos() == 0,
    {
        Reader { data, at: 0 }
    }

    /// Move to the next multiple of four at or after `at + extra`, held at
    /// the end.
    fn align_after(&mut self, extra: usize)
        requires
            extra <= 2,
        ensures
            final(self).data() == old(self).data(),
            final(self).pos() == held(old(self).data(), (old(self).pos() + extra + 3) / 4 * 4),
    {
        proof { use_type_invariant(&*self); }
        let base = self.at / 4 * 4;
        let step = (self.at % 4 + extra + 3) / 4 * 4;
        assert(base + step == (self.at + extra + 3) / 4 * 4) by {
            assert(self.at == self.at / 4 * 4 + self.at % 4);
        }
        if self.data.len() - base >= step {
            self.at = base + step;
        } else {
            self.at = self.data.len();
        }
    }

    fn take(&mut self, count: usize) -> (r: &'a [u8])
        ensures
            final(self).data() == old(self).data(),
            (r@, final(self).pos()) == step_take(old(self).data(), old(self).pos(), count as int),
    {
        proof { use_type_invariant(&*self); }
        if self.data.len() - self.at < count {
            return &[];
        }
        let slice = &self.data[self.at..self.at + count];
        self.at = self.at + count;
        slice
    }

    pub fn i32(&mut self) -> (r: i32)
        ensures
            final(self).data() == old(self).data(),
            (r, final(self).pos()) == step_i32(old(self).data(), old(self).pos()),
    {
        proof { use_type_invariant(&*self); }
        if self.data.len() - self.at < 4 {
            return 0;
        }
        let v = read_le32(self.data, self.at) as i32;
        self.at = self.at + 4;
        v
    }

    /// One byte, which is what a bool is in a flattened stream.
    pub fn i8(&mut self) -> (r: i8)
        ensures
            final(self).data() == old(self).data(),
            (r, final(self).pos()) == step_i8(old(self).data(), old(self).pos()),
    {
        proof { use_type_invariant(&*self); }
        if self.data.len() - self.at < 1 {
            return 0;
        }
        let v = self.data[self.at] as i8;
        self.at = self.at + 1;
        v
    }

    pub fn i64(&mut self) -> (r: i64)
        ensures
            final(self).data() == old(self).data(),
            (r, final(self).pos()) == step_i64(old(self).data(), old(self).pos()),
    {
        proof { use_type_invariant(&*self); }
        if self.data.len() - self.at < 8 {
            return 0;
        }
        let v = read_le64(self.data, self.at) as i64;
        self.at = self.at + 8;
        v
    }

    /// A string16. `None` is the wire's null string, a count of -1.
    pub fn string(&mut self) -> (r: Option<String>)
        ensures
            final(self).data() == old(self).data(),
            final(self).pos() == step_string(old(self).data(), old(self).pos()).1,
            match step_string(old(self).data(), old(self).pos()).0 {
                Some(t) => r is Some && r->0@ == t,
                None => r is None,
            },
    {
        let count = self.i32();
        if count < 0 {
            return None;
        }
        let units = self.take((count as usize) * 2);
        let mut text: Vec<char> = Vec::new();
        let mut i: usize = 0;
        while units.len() - i >= 2
            invariant
                i % 2 == 0,
                i <= units@.len(),
                units@.len() % 2 == 0,
                text@ == decode_units(units@.subrange(0, i as int)),
            decreases units@.len() - i,
        {
            let unit = (units[i] as u16) + 256 * (units[i + 1] as u16);
            let ghost prev = text@;
            let ghost next = units@.subrange(0, i + 2);
            proof {
                assert(next.subrange(0, next.len() - 2) =~= units@.subrange(0, i as int));
                assert(unit == (next[next.len() - 2] as int + 256 * (next[next.len() - 1] as int)) as u16);
                assert(prev == decode_units(next.subrange(0, next.len() - 2)));
                assert(decode_units(next) == if unit == 0 { prev } else { prev.push(unit_char(unit)) });
            }
            if unit != 0 {
                let c = match char_from_u32(unit as u32) {
                    Some(c) => c,
                    None => '?',
                };
                proof {
                    if !(0xD800 <= unit <= 0xDFFF) {
                        vstd::utf8::char_u32_cast(c, unit as u32);
                        assert(c == unit_char(unit));
                    }
                }
                text.push(c);
            }
            assert(text@ == decode_units(next));
            i = i + 2;
        }
        assert(units@.subrange(0, i as int) =~= units@);
        self.align_after(2);
        Some(string_of(text.as_slice()))
    }

    /// An array of int64: a count and then the values.
    pub fn i64s(&mut self) -> (r: Vec<i64>)
        ensures
            final(self).data() == old(self).data(),
            ({
                let (count, a1) = step_i32(old(self).data(), old(self).pos());
                if count <= 0 {
                    r@ == Seq::<i64>::empty() && final(self).pos() == a1
                } else {
                    (r@, final(self).pos()) == steps_i64(old(self).data(), a1, count as nat)
                }
            }),
    {
        let count = self.i32();
        let mut out: Vec<i64> = Vec::new();
        if count <= 0 {
            return out;
        }
        let ghost a1 = self.pos();
        let mut k: i32 = 0;
        while k < count
            invariant
                0 <= k <= count,
                self.data() == old(self).data(),
                a1 == step_i32(old(self).data(), old(self).pos()).1,
                (out@, self.pos()) == steps_i64(self.data(), a1, k as nat),
            decreases count - k,
        {
            let v = self.i64();
            out.push(v);
            k = k + 1;
        }
        out
    }

    /// An array of ints: a count and then the ints.
    pub fn i32s(&mut self) -> (r: Vec<i32>)
        ensures
            final(self).data() == old(self).data(),
            ({
                let (count, a1) = step_i32(old(self).data(), old(self).pos());
                if count <= 0 {
                    r@ == Seq::<i32>::empty() && final(self).pos() == a1
                } else {
                    (r@, final(self).pos()) == steps_i32(old(self).data(), a1, count as nat)
                }
            }),
    {
        let count = self.i32();
        let mut out: Vec<i32> = Vec::new();
        if count <= 0 {
            return out;
        }
        let ghost a1 = self.pos();
        let mut k: i32 = 0;
        while k < count
            invariant
                0 <= k <= count,
                self.data() == old(self).data(),
                a1 == step_i32(old(self).data(), old(self).pos()).1,
                (out@, self.pos()) == steps_i32(self.data(), a1, k as nat),
            decreases count - k,
        {
            let v = self.i32();
            out.push(v);
            k = k + 1;
        }
        out
    }

    /// A `String8`: a byte length, then the bytes and their terminator,
    /// padded out to four.
    pub fn string8(&mut self) -> (r: Option<String>)
        ensures
            final(self).data() == old(self).data(),
            final(self).pos() == step_string8(old(self).data(), old(self).pos()).1,
            match step_string8(old(self).data(), old(self).pos()).0 {
                Some(t) => r is Some && r->0@ == t,
                None => r is None,
            },
    {
        let len = self.i32();
        if len < 0 {
            return None;
        }
        let bytes = self.take(len as usize);
        let _ = self.take(1);
        self.align_after(0);
        Some(utf8_lossy(bytes))
    }

    /// An array of strings: a count and then the strings, the null ones left
    /// out.
    pub fn strings(&mut self) -> (r: Vec<String>)
        ensures
            final(self).data() == old(self).data(),
            ({
                let (count, a1) = step_i32(old(self).data(), old(self).pos());
                if count <= 0 {
                    r@.len() == 0 && final(self).pos() == a1
                } else {
                    let (texts, a2) = steps_string(old(self).data(), a1, count as nat);
                    &&& r@.len() == texts.len()
                    &&& forall|i: int| 0 <= i < r@.len() ==> (#[trigger] r@[i])@ == texts[i]
                    &&& final(self).pos() == a2
                }
            }),
    {
        let count = self.i32();
        let mut out: Vec<String> = Vec::new();
        if count <= 0 {
            return out;
        }
        let ghost a1 = self.pos();
        let mut k: i32 = 0;
        while k < count
            invariant
                0 <= k <= count,
                self.data() == old(self).data(),
                a1 == step_i32(old(self).data(), old(self).pos()).1,
                self.pos() == steps_string(self.data(), a1, k as nat).1,
                out@.len() == steps_string(self.data(), a1, k as nat).0.len(),
                forall|i: int| 0 <= i < out@.len() ==> (#[trigger] out@[i])@ == steps_string(self.data(), a1, k as nat).0[i],
            decreases count - k,
        {
            let s = self.string();
            match s {
                Some(t) => out.push(t),
                None => {},
            }
            k = k + 1;
        }
        out
    }

    /// Whether the next word is the presence flag of a parcelable argument,
    /// consumed if so. A request that does not carry it is accepted too.
    pub fn parcelable_present(&mut self)
        ensures
            final(self).data() == old(self).data(),
            final(self).pos() == if old(self).pos() + 4 <= old(self).data().len() && get_le32(old(self).data(), old(self).pos()) as i32 == 1 {
                old(self).pos() + 4
            } else {
                old(self).pos()
            },
    {
        proof { use_type_invariant(&*self); }
        if self.data.len() - self.at >= 4 && read_le32(self.data, self.at) as i32 == 1 {
            self.at = self.at + 4;
        }
    }

    /// What is left.
    pub fn rest(&self) -> (r: &'a [u8])
        ensures
            r@ == self.data().subrange(self.pos(), self.data().len() as int),
    {
        proof { use_type_invariant(self); }
        &self.data[self.at..self.data.len()]
    }
}

} // verus!
