//! The multi-file upload format exchanged between host and guest.
//!
//! ```text
//! 0 .. 4          count N, little endian
//! 4 .. 4 + 12 N   N triples (file name length, mime length, bytes length)
//! 4 + 12 N ..     for each entry: file name, mime string, bytes
//! ```
use vstd::bytes::*;
use vstd::prelude::*;
use vstd::string::*;
use vstd::utf8::*;

verus! {

/// Largest value a length field of the format may carry: the fields are
/// signed 32-bit integers on the wire.
pub const MAX_FIELD: u32 = 0x7fff_ffff;

/// Smallest input that the decoder reads: anything shorter is taken as no
/// entries at all.
pub const MIN_DECODED_LEN: usize = 16;

#[derive(Debug)]
pub struct FilePart {
    pub file_name: String,
    pub mime_str: String,
    pub bytes: Vec<u8>,
}

#[derive(Debug)]
pub struct FileParts {
    pub inner: Vec<FilePart>,
}

/// What a `FilePart` holds, as mathematical values.
pub struct PartView {
    pub file_name: Seq<char>,
    pub mime_str: Seq<char>,
    pub bytes: Seq<u8>,
}

impl View for FilePart {
    type V = PartView;

    open spec fn view(&self) -> PartView {
        PartView { file_name: self.file_name@, mime_str: self.mime_str@, bytes: self.bytes@ }
    }
}

impl View for FileParts {
    type V = Seq<PartView>;

    open spec fn view(&self) -> Seq<PartView> {
        self.inner@.map_values(|p: FilePart| p@)
    }
}

// ---------------------------------------------------------------- encoding

pub open spec fn le32(x: int) -> Seq<u8> {
    spec_u32_to_le_bytes(x as u32)
}

pub open spec fn name_bytes(p: PartView) -> Seq<u8> {
    encode_utf8(p.file_name)
}

pub open spec fn mime_bytes(p: PartView) -> Seq<u8> {
    encode_utf8(p.mime_str)
}

/// The three length fields of one entry.
pub open spec fn entry_lengths(p: PartView) -> Seq<u8> {
    le32(name_bytes(p).len() as int) + le32(mime_bytes(p).len() as int) + le32(p.bytes.len() as int)
}

/// The payload of one entry: file name, mime string and bytes, back to back.
pub open spec fn entry_payload(p: PartView) -> Seq<u8> {
    name_bytes(p) + mime_bytes(p) + p.bytes
}

pub open spec fn length_table(ps: Seq<PartView>) -> Seq<u8>
    decreases ps.len(),
{
    if ps.len() == 0 {
        seq![]
    } else {
        length_table(ps.drop_last()) + entry_lengths(ps.last())
    }
}

pub open spec fn payloads(ps: Seq<PartView>) -> Seq<u8>
    decreases ps.len(),
{
    if ps.len() == 0 {
        seq![]
    } else {
        payloads(ps.drop_last()) + entry_payload(ps.last())
    }
}

/// The encoding of a sequence of entries.
pub open spec fn encode_parts(ps: Seq<PartView>) -> Seq<u8> {
    le32(ps.len() as int) + length_table(ps) + payloads(ps)
}

/// Every count and length fits in a length field.
pub open spec fn encodable(ps: Seq<PartView>) -> bool {
    &&& ps.len() <= MAX_FIELD
    &&& forall|i: int|
        0 <= i < ps.len() ==> {
            &&& #[trigger] name_bytes(ps[i]).len() <= MAX_FIELD
            &&& mime_bytes(ps[i]).len() <= MAX_FIELD
            &&& ps[i].bytes.len() <= MAX_FIELD
        }
}

// ---------------------------------------------------------------- decoding

/// The 32-bit little-endian field that starts at `at`.
pub open spec fn field_at(b: Seq<u8>, at: int) -> int {
    spec_u32_from_le_bytes(b.subrange(at, at + 4)) as int
}

pub open spec fn part_count(b: Seq<u8>) -> int {
    field_at(b, 0)
}

/// Length field `k` (0: file name, 1: mime string, 2: bytes) of entry `i`.
pub open spec fn length_of(b: Seq<u8>, i: int, k: int) -> int {
    field_at(b, 4 + 12 * i + 4 * k)
}

pub open spec fn entry_size(b: Seq<u8>, i: int) -> int {
    length_of(b, i, 0) + length_of(b, i, 1) + length_of(b, i, 2)
}

/// Where the payload of entry `i` starts.
pub open spec fn payload_start(b: Seq<u8>, i: nat) -> int
    decreases i,
{
    if i == 0 {
        4 + 12 * part_count(b)
    } else {
        payload_start(b, (i - 1) as nat) + entry_size(b, i - 1)
    }
}

/// The input describes `part_count(b)` entries whose fields are non-negative
/// and whose payloads all lie inside the input.
pub open spec fn well_formed(b: Seq<u8>) -> bool {
    &&& b.len() >= MIN_DECODED_LEN
    &&& part_count(b) <= MAX_FIELD
    &&& 4 + 12 * part_count(b) <= b.len()
    &&& forall|i: int, k: int|
        0 <= i < part_count(b) && 0 <= k < 3 ==> #[trigger] length_of(b, i, k) <= MAX_FIELD
    &&& payload_start(b, part_count(b) as nat) <= b.len()
}

/// Text decoded from UTF-8, or the empty string where the bytes are not UTF-8.
pub open spec fn text_or_empty(bytes: Seq<u8>) -> Seq<char> {
    if valid_utf8(bytes) {
        decode_utf8(bytes)
    } else {
        seq![]
    }
}

pub open spec fn part_at(b: Seq<u8>, i: int) -> PartView {
    let s = payload_start(b, i as nat);
    let l0 = length_of(b, i, 0);
    let l1 = length_of(b, i, 1);
    let l2 = length_of(b, i, 2);
    PartView {
        file_name: text_or_empty(b.subrange(s, s + l0)),
        mime_str: text_or_empty(b.subrange(s + l0, s + l0 + l1)),
        bytes: b.subrange(s + l0 + l1, s + l0 + l1 + l2),
    }
}

/// The entries that the decoder reads from `b`: none unless `b` is well formed.
pub open spec fn decode_parts(b: Seq<u8>) -> Seq<PartView> {
    if well_formed(b) {
        Seq::new(part_count(b) as nat, |i: int| part_at(b, i))
    } else {
        seq![]
    }
}

// ---------------------------------------------------------------- laws

proof fn lemma_length_table(ps: Seq<PartView>)
    ensures
        length_table(ps).len() == 12 * ps.len(),
        forall|i: int|
            0 <= i < ps.len() ==> #[trigger] length_table(ps).subrange(12 * i, 12 * i + 12)
                == entry_lengths(ps[i]),
    decreases ps.len(),
{
    lemma_auto_spec_u32_to_from_le_bytes();
    if ps.len() > 0 {
        let init = ps.drop_last();
        lemma_length_table(init);
        let t = length_table(ps);
        assert(t == length_table(init) + entry_lengths(ps.last()));
        assert forall|i: int| 0 <= i < ps.len() implies #[trigger] t.subrange(12 * i, 12 * i + 12)
            == entry_lengths(ps[i]) by {
            if i < ps.len() - 1 {
                assert(init[i] == ps[i]);
                assert(t.subrange(12 * i, 12 * i + 12) =~= length_table(init).subrange(
                    12 * i,
                    12 * i + 12,
                ));
            } else {
                assert(t.subrange(12 * i, 12 * i + 12) =~= entry_lengths(ps.last()));
            }
        }
    }
}

proof fn lemma_payloads_prefix(ps: Seq<PartView>, j: int)
    requires
        0 <= j <= ps.len(),
    ensures
        payloads(ps.take(j)).len() <= payloads(ps).len(),
        payloads(ps).subrange(0, payloads(ps.take(j)).len() as int) == payloads(ps.take(j)),
    decreases ps.len(),
{
    if j == ps.len() {
        assert(ps.take(j) =~= ps);
        assert(payloads(ps).subrange(0, payloads(ps).len() as int) =~= payloads(ps));
    } else {
        let init = ps.drop_last();
        assert(init.take(j) =~= ps.take(j));
        lemma_payloads_prefix(init, j);
        let p = payloads(ps.take(j));
        assert(payloads(ps) == payloads(init) + entry_payload(ps.last()));
        assert(payloads(ps).subrange(0, p.len() as int) =~= payloads(init).subrange(
            0,
            p.len() as int,
        ));
    }
}

proof fn lemma_payloads_step(ps: Seq<PartView>, i: int)
    requires
        0 <= i < ps.len(),
    ensures
        payloads(ps.take(i + 1)) == payloads(ps.take(i)) + entry_payload(ps[i]),
{
    assert(ps.take(i + 1).drop_last() =~= ps.take(i));
    assert(ps.take(i + 1).last() == ps[i]);
}

proof fn lemma_text_round_trip(s: Seq<char>)
    ensures
        text_or_empty(encode_utf8(s)) == s,
{
    encode_utf8_valid_utf8(s);
    encode_utf8_decode_utf8(s);
}

/// What length field `k` (0: file name, 1: mime string, 2: bytes) of an
/// entry's encoding holds.
pub open spec fn length_in(p: PartView, k: int) -> int {
    if k == 0 {
        name_bytes(p).len() as int
    } else if k == 1 {
        mime_bytes(p).len() as int
    } else {
        p.bytes.len() as int
    }
}

proof fn lemma_encoded_lengths(ps: Seq<PartView>)
    requires
        encodable(ps),
    ensures
        part_count(encode_parts(ps)) == ps.len(),
        encode_parts(ps).len() == 4 + 12 * ps.len() + payloads(ps).len(),
        forall|i: int, k: int|
            0 <= i < ps.len() && 0 <= k < 3 ==> #[trigger] length_of(encode_parts(ps), i, k)
                == length_in(ps[i], k),
{
    lemma_auto_spec_u32_to_from_le_bytes();
    let b = encode_parts(ps);
    let n = ps.len() as int;
    let t = length_table(ps);
    lemma_length_table(ps);
    assert(b.subrange(0, 4) =~= le32(n));
    assert forall|i: int, k: int| 0 <= i < n && 0 <= k < 3 implies #[trigger] length_of(b, i, k)
        == length_in(ps[i], k) by {
        let at = 4 + 12 * i + 4 * k;
        let e = entry_lengths(ps[i]);
        assert(name_bytes(ps[i]).len() <= MAX_FIELD);
        assert(t.subrange(12 * i, 12 * i + 12) == e);
        assert(b.subrange(at, at + 4) =~= e.subrange(4 * k, 4 * k + 4));
        if k == 0 {
            assert(e.subrange(0, 4) =~= le32(name_bytes(ps[i]).len() as int));
        } else if k == 1 {
            assert(e.subrange(4, 8) =~= le32(mime_bytes(ps[i]).len() as int));
        } else {
            assert(e.subrange(8, 12) =~= le32(ps[i].bytes.len() as int));
        }
    }
}

proof fn lemma_part_round_trip(ps: Seq<PartView>, i: int)
    requires
        0 <= i < ps.len(),
        forall|j: int| 0 <= j <= ps.len() ==> #[trigger] payload_start(encode_parts(ps), j as nat)
            == 4 + 12 * ps.len() + payloads(ps.take(j)).len(),
        forall|j: int, k: int|
            0 <= j < ps.len() && 0 <= k < 3 ==> #[trigger] length_of(encode_parts(ps), j, k)
                == length_in(ps[j], k),
    ensures
        part_at(encode_parts(ps), i) == ps[i],
{
    let b = encode_parts(ps);
    let n = ps.len() as int;
    let pl = payloads(ps);
    let s = payload_start(b, i as nat);
    let p = ps[i];
    let nb = name_bytes(p);
    let mb = mime_bytes(p);
    lemma_payloads_step(ps, i);
    lemma_payloads_prefix(ps, i + 1);
    let before = payloads(ps.take(i));
    let upto = payloads(ps.take(i + 1));
    assert(pl.subrange(0, upto.len() as int) == upto);
    assert(upto.subrange(before.len() as int, upto.len() as int) =~= entry_payload(p));
    let e = entry_payload(p);
    let ln = nb.len() as int;
    let lm = mb.len() as int;
    let lb = p.bytes.len() as int;
    assert(length_of(b, i, 0) == ln);
    assert(length_of(b, i, 1) == lm);
    assert(length_of(b, i, 2) == lb);
    lemma_auto_spec_u32_to_from_le_bytes();
    lemma_length_table(ps);
    assert(b == le32(n) + length_table(ps) + pl);
    let base = 4 + 12 * n;
    assert(b.len() == base + pl.len());
    assert(s == base + before.len());
    assert(e.len() == ln + lm + lb);
    assert(b.subrange(s, s + e.len()) =~= pl.subrange(before.len() as int, upto.len() as int));
    assert(pl.subrange(before.len() as int, upto.len() as int) =~= upto.subrange(
        before.len() as int,
        upto.len() as int,
    ));
    assert(b.subrange(s, s + e.len()) == e);
    assert(b.subrange(s, s + ln) =~= e.subrange(0, ln));
    assert(e.subrange(0, ln) =~= nb);
    assert(b.subrange(s + ln, s + ln + lm) =~= e.subrange(ln, ln + lm));
    assert(e.subrange(ln, ln + lm) =~= mb);
    assert(b.subrange(s + ln + lm, s + ln + lm + lb) =~= e.subrange(ln + lm, ln + lm + lb));
    assert(e.subrange(ln + lm, ln + lm + lb) =~= p.bytes);
    lemma_text_round_trip(p.file_name);
    lemma_text_round_trip(p.mime_str);
}

/// Decoding the encoding of any entries that fit the format gives back the
/// same entries, field by field; in particular no entries decode to no entries.
pub proof fn lemma_round_trip(ps: Seq<PartView>)
    requires
        encodable(ps),
    ensures
        decode_parts(encode_parts(ps)) == ps,
{
    let b = encode_parts(ps);
    let n = ps.len() as int;
    lemma_encoded_lengths(ps);
    if n == 0 {
        return;
    }
    assert forall|i: int| 0 <= i <= n implies #[trigger] payload_start(b, i as nat) == 4 + 12 * n
        + payloads(ps.take(i)).len() by {
        lemma_payload_start_value(ps, i);
    }
    assert(ps.take(n) =~= ps);
    assert(payload_start(b, n as nat) == b.len());
    assert forall|i: int, k: int| 0 <= i < n && 0 <= k < 3 implies #[trigger] length_of(b, i, k)
        <= MAX_FIELD by {
        assert(name_bytes(ps[i]).len() <= MAX_FIELD);
    }
    assert forall|i: int| 0 <= i < n implies #[trigger] part_at(b, i) == ps[i] by {
        lemma_part_round_trip(ps, i);
    }
    assert(decode_parts(b) =~= ps);
}

proof fn lemma_payload_start_value(ps: Seq<PartView>, i: int)
    requires
        0 <= i <= ps.len(),
        part_count(encode_parts(ps)) == ps.len(),
        forall|j: int, k: int|
            0 <= j < ps.len() && 0 <= k < 3 ==> #[trigger] length_of(encode_parts(ps), j, k)
                == length_in(ps[j], k),
    ensures
        payload_start(encode_parts(ps), i as nat) == 4 + 12 * ps.len() + payloads(
            ps.take(i),
        ).len(),
    decreases i,
{
    let b = encode_parts(ps);
    if i == 0 {
        assert(ps.take(0) =~= Seq::<PartView>::empty());
    } else {
        lemma_payload_start_value(ps, i - 1);
        lemma_payloads_step(ps, i - 1);
        assert(length_of(b, i - 1, 0) == name_bytes(ps[i - 1]).len());
        assert(length_of(b, i - 1, 1) == mime_bytes(ps[i - 1]).len());
        assert(length_of(b, i - 1, 2) == ps[i - 1].bytes.len());
    }
}

// ---------------------------------------------------------------- executable

/// Relies on `String::from_utf8`: `Ok` exactly for valid UTF-8, holding the
/// characters that the bytes encode.
#[verifier::external_body]
pub(crate) fn utf8_string(bytes: Vec<u8>) -> (r: Option<String>)
    ensures
        r.is_some() <==> valid_utf8(bytes@),
        r matches Some(s) ==> s@ == decode_utf8(bytes@),
{
    String::from_utf8(bytes).ok()
}

pub fn text_or_empty_of(bytes: Vec<u8>) -> (r: String)
    ensures
        r@ == text_or_empty(bytes@),
{
    match utf8_string(bytes) {
        Some(s) => s,
        None => String::new(),
    }
}

/// The 32-bit little-endian field that starts at `at`.
pub fn read_field(b: &Vec<u8>, at: usize) -> (r: u32)
    requires
        at + 4 <= b@.len(),
    ensures
        r as int == field_at(b@, at as int),
{
    let len = b.len();
    assert(at + 3 < len);
    let quad: Vec<u8> = vec![b[at], b[at + 1], b[at + 2], b[at + 3]];
    assert(quad@ =~= b@.subrange(at as int, at + 4));
    u32_from_le_bytes(quad.as_slice())
}

/// A copy of `b[start..end]`.
pub fn copy_range(b: &Vec<u8>, start: usize, end: usize) -> (r: Vec<u8>)
    requires
        start <= end <= b@.len(),
    ensures
        r@ == b@.subrange(start as int, end as int),
{
    let mut r: Vec<u8> = Vec::with_capacity(end - start);
    let mut i: usize = start;
    while i < end
        invariant
            start <= i <= end <= b@.len(),
            r@ == b@.subrange(start as int, i as int),
        decreases end - i,
    {
        r.push(b[i]);
        i = i + 1;
        assert(r@ =~= b@.subrange(start as int, i as int));
    }
    r
}

pub(crate) fn append_bytes(out: &mut Vec<u8>, more: &[u8])
    ensures
        final(out)@ == old(out)@ + more@,
{
    let mut i: usize = 0;
    while i < more.len()
        invariant
            i <= more@.len(),
            out@ == old(out)@ + more@.subrange(0, i as int),
        decreases more@.len() - i,
    {
        out.push(more[i]);
        i = i + 1;
        assert(out@ =~= old(out)@ + more@.subrange(0, i as int));
    }
    assert(more@.subrange(0, more@.len() as int) =~= more@);
}

proof fn lemma_payload_start_monotonic(b: Seq<u8>, i: nat, j: nat)
    requires
        i <= j,
    ensures
        payload_start(b, i) <= payload_start(b, j),
    decreases j,
{
    if i < j {
        lemma_payload_start_monotonic(b, i, (j - 1) as nat);
    }
}

impl FileParts {
    /// Whether every count and length fits in a length field.
    pub fn fits(&self) -> (r: bool)
        ensures
            r == encodable(self@),
    {
        let n = self.inner.len();
        if n > MAX_FIELD as usize {
            return false;
        }
        let mut i: usize = 0;
        while i < n
            invariant
                n == self.inner@.len(),
                i <= n,
                forall|j: int|
                    0 <= j < i ==> {
                        &&& #[trigger] name_bytes(self@[j]).len() <= MAX_FIELD
                        &&& mime_bytes(self@[j]).len() <= MAX_FIELD
                        &&& self@[j].bytes.len() <= MAX_FIELD
                    },
            decreases n - i,
        {
            let part = &self.inner[i];
            assert(self@[i as int] == part@);
            let name = part.file_name.as_str();
            let mime = part.mime_str.as_str();
            if name.as_bytes().len() > MAX_FIELD as usize || mime.as_bytes().len() > MAX_FIELD as usize
                || part.bytes.len() > MAX_FIELD as usize {
                assert(name_bytes(self@[i as int]) == name.spec_bytes());
                assert(mime_bytes(self@[i as int]) == mime.spec_bytes());
                return false;
            }
            i = i + 1;
        }
        true
    }

    /// The encoding of these entries.
    pub fn to_vec(&self) -> (r: Vec<u8>)
        requires
            encodable(self@),
        ensures
            r@ == encode_parts(self@),
    {
        let ghost ps = self@;
        let n = self.inner.len();
        let mut out = u32_to_le_bytes(n as u32);
        let mut i: usize = 0;
        while i < n
            invariant
                n == self.inner@.len(),
                ps == self@,
                encodable(ps),
                i <= n,
                out@ == le32(n as int) + length_table(ps.take(i as int)),
            decreases n - i,
        {
            let part = &self.inner[i];
            assert(ps[i as int] == part@);
            assert(name_bytes(ps[i as int]).len() <= MAX_FIELD);
            let name_len = part.file_name.as_str().as_bytes().len();
            let mime_len = part.mime_str.as_str().as_bytes().len();
            let a = u32_to_le_bytes(name_len as u32);
            let b = u32_to_le_bytes(mime_len as u32);
            let c = u32_to_le_bytes(part.bytes.len() as u32);
            append_bytes(&mut out, a.as_slice());
            append_bytes(&mut out, b.as_slice());
            append_bytes(&mut out, c.as_slice());
            assert(ps.take(i + 1).drop_last() =~= ps.take(i as int));
            i = i + 1;
        }
        assert(ps.take(n as int) =~= ps);
        let ghost head = out@;
        let mut i: usize = 0;
        while i < n
            invariant
                n == self.inner@.len(),
                ps == self@,
                i <= n,
                out@ == head + payloads(ps.take(i as int)),
            decreases n - i,
        {
            let part = &self.inner[i];
            assert(ps[i as int] == part@);
            append_bytes(&mut out, part.file_name.as_str().as_bytes());
            append_bytes(&mut out, part.mime_str.as_str().as_bytes());
            append_bytes(&mut out, part.bytes.as_slice());
            assert(ps.take(i + 1).drop_last() =~= ps.take(i as int));
            i = i + 1;
        }
        out
    }

    /// Reads entries back from their encoding. Input shorter than
    /// `MIN_DECODED_LEN`, or input that is not well formed, gives no entries.
    pub fn decode(raw: &Vec<u8>) -> (r: FileParts)
        ensures
            r@ == decode_parts(raw@),
            raw@.len() < MIN_DECODED_LEN ==> r@.len() == 0,
    {
        let empty = FileParts { inner: Vec::new() };
        proof {
            assert(empty@ =~= Seq::<PartView>::empty());
        }
        let len = raw.len();
        if len < MIN_DECODED_LEN {
            return empty;
        }
        let n = read_field(raw, 0);
        if n > MAX_FIELD || 4 + 12 * (n as u64) > len as u64 {
            return empty;
        }
        let n = n as usize;
        let mut v: Vec<FilePart> = Vec::new();
        let mut offset: usize = 4 + 12 * n;
        let mut i: usize = 0;
        while i < n
            invariant
                n as int == part_count(raw@),
                len == raw@.len(),
                len >= MIN_DECODED_LEN,
                n <= MAX_FIELD,
                4 + 12 * n <= len,
                i <= n,
                offset as int == payload_start(raw@, i as nat),
                offset <= len,
                v@.len() == i,
                forall|j: int, k: int|
                    0 <= j < i && 0 <= k < 3 ==> #[trigger] length_of(raw@, j, k) <= MAX_FIELD,
                forall|j: int| 0 <= j < i ==> #[trigger] v@[j]@ == part_at(raw@, j),
                empty@ == Seq::<PartView>::empty(),
            decreases n - i,
        {
            let at = 4 + 12 * i;
            let l0 = read_field(raw, at);
            let l1 = read_field(raw, at + 4);
            let l2 = read_field(raw, at + 8);
            proof {
                assert(l0 as int == length_of(raw@, i as int, 0));
                assert(l1 as int == length_of(raw@, i as int, 1));
                assert(l2 as int == length_of(raw@, i as int, 2));
            }
            if l0 > MAX_FIELD || l1 > MAX_FIELD || l2 > MAX_FIELD
                || (l0 as u64) + (l1 as u64) + (l2 as u64) > (len - offset) as u64 {
                proof {
                    if !(l0 > MAX_FIELD || l1 > MAX_FIELD || l2 > MAX_FIELD) {
                        lemma_payload_start_monotonic(raw@, (i + 1) as nat, n as nat);
                    }
                }
                return empty;
            }
            let name_end = offset + l0 as usize;
            let mime_end = name_end + l1 as usize;
            let bytes_end = mime_end + l2 as usize;
            let file_name = text_or_empty_of(copy_range(raw, offset, name_end));
            let mime_str = text_or_empty_of(copy_range(raw, name_end, mime_end));
            let bytes = copy_range(raw, mime_end, bytes_end);
            let part = FilePart { file_name, mime_str, bytes };
            assert(part@ == part_at(raw@, i as int));
            v.push(part);
            offset = bytes_end;
            i = i + 1;
            assert forall|j: int, k: int|
                0 <= j < i && 0 <= k < 3 implies #[trigger] length_of(raw@, j, k) <= MAX_FIELD by {
                if j < i - 1 {
                } else {
                    assert(j == i - 1);
                }
            }
        }
        let r = FileParts { inner: v };
        assert(well_formed(raw@));
        assert(r@ =~= decode_parts(raw@));
        r
    }
}

impl From<Vec<u8>> for FileParts {
    fn from(raw: Vec<u8>) -> (r: FileParts)
        ensures
            r@ == decode_parts(raw@),
    {
        FileParts::decode(&raw)
    }
}

impl vstd::std_specs::convert::FromSpecImpl<Vec<u8>> for FileParts {
    open spec fn obeys_from_spec() -> bool {
        false
    }

    open spec fn from_spec(v: Vec<u8>) -> FileParts {
        arbitrary()
    }
}

} // verus!
