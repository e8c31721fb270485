//! WebSocket frames: building the frames the server sends and reading the
//! frames a client sends.

use vstd::prelude::*;

verus! {

/// `x` as `k` bytes, most significant first (the low `k` bytes of `x`).
pub open spec fn be_bytes(x: nat, k: nat) -> Seq<u8>
    decreases k,
{
    if k == 0 {
        Seq::empty()
    } else {
        be_bytes(x / 256, (k - 1) as nat).push((x % 256) as u8)
    }
}

/// The number whose bytes, most significant first, are `s`.
pub open spec fn be_value(s: Seq<u8>) -> nat
    decreases s.len(),
{
    if s.len() == 0 {
        0
    } else {
        be_value(s.drop_last()) * 256 + s.last() as nat
    }
}

/// First byte of a frame: the FIN bit and the low four bits of `opcode`.
pub open spec fn first_byte(fin: bool, opcode: u8) -> u8 {
    (if fin {
        0x80u8
    } else {
        0u8
    }) | (opcode & 0x0f)
}

/// The unmasked frame that carries `payload`: first byte, then the payload
/// length in 7 bits, or 126 and 2 length bytes, or 127 and 8 length bytes,
/// then the payload.
pub open spec fn frame_bytes(fin: bool, opcode: u8, payload: Seq<u8>) -> Seq<u8> {
    let n = payload.len();
    let head = if n <= 125 {
        seq![first_byte(fin, opcode), n as u8]
    } else if n <= 65535 {
        seq![first_byte(fin, opcode), 126u8] + be_bytes(n, 2)
    } else {
        seq![first_byte(fin, opcode), 127u8] + be_bytes(n, 8)
    };
    head + payload
}

fn push_be(out: &mut Vec<u8>, x: u64, k: usize)
    ensures
        final(out)@ == old(out)@ + be_bytes(x as nat, k as nat),
    decreases k,
{
    if k > 0 {
        push_be(out, x / 256, k - 1);
        out.push((x % 256) as u8);
        assert(out@ =~= old(out)@ + be_bytes(x as nat, k as nat));
    } else {
        assert(out@ =~= old(out)@ + be_bytes(x as nat, k as nat));
    }
}

/// The unmasked frame, as a server sends it, carrying `payload`.
pub fn build_frame(fin: bool, opcode: u8, payload: &[u8]) -> (frame: Vec<u8>)
    ensures
        frame@ == frame_bytes(fin, opcode, payload@),
        frame@.len() >= payload@.len(),
        frame@.subrange(frame@.len() - payload@.len(), frame@.len() as int) == payload@,
{
    let mut frame: Vec<u8> = Vec::new();
    let byte0: u8 = (if fin {
        0b10000000u8
    } else {
        0u8
    }) | (opcode & 0x0f);
    frame.push(byte0);
    let payload_len = payload.len();
    if payload_len <= 125 {
        frame.push(payload_len as u8);
    } else if payload_len <= 65535 {
        frame.push(126);
        push_be(&mut frame, payload_len as u64, 2);
    } else {
        frame.push(127);
        push_be(&mut frame, payload_len as u64, 8);
    }
    let ghost head = frame@;
    let mut i: usize = 0;
    while i < payload_len
        invariant
            payload_len == payload@.len(),
            i <= payload_len,
            frame@ == head + payload@.take(i as int),
        decreases payload_len - i,
    {
        frame.push(payload[i]);
        assert(payload@.take(i + 1) =~= payload@.take(i as int).push(payload@[i as int]));
        i = i + 1;
    }
    assert(payload@.take(payload_len as int) =~= payload@);
    assert(frame@ =~= frame_bytes(fin, opcode, payload@));
    assert(frame@.subrange(frame@.len() - payload@.len(), frame@.len() as int) =~= payload@);
    frame
}

/// `payload` with every byte XORed with the masking key byte at its position modulo 4.
pub open spec fn unmask(payload: Seq<u8>, key: Seq<u8>) -> Seq<u8> {
    Seq::new(payload.len(), |i: int| payload[i] ^ key[i % 4])
}

/// Where a text or binary frame's payload lies, once its header is complete:
/// whether it is masked, where the payload starts, and its declared length.
/// `None` while the length bytes or the four bytes after them are missing.
pub open spec fn frame_layout(buf: Seq<u8>) -> Option<(bool, int, int)> {
    let masked = (buf[1] & 0x80u8) != 0;
    let len7 = buf[1] & 0x7fu8;
    let (payload_len, offset): (int, int) = if len7 == 126 {
        (be_value(buf.subrange(2, 4)) as int, 4)
    } else if len7 == 127 {
        (((be_value(buf.subrange(2, 10)) as u64) as usize) as int, 10)
    } else {
        (len7 as int, 2)
    };
    if buf.len() < offset + 4 {
        None
    } else {
        Some((masked, if masked { offset + 4 } else { offset }, payload_len))
    }
}

/// The frame at the start of `buf` is a text or binary frame.
pub open spec fn is_data_frame(buf: Seq<u8>) -> bool {
    buf.len() > 2 && ((buf[0] & 0x0fu8) == 1 || (buf[0] & 0x0fu8) == 2)
}

/// The frame at the start of `buf` declares a payload that ends past
/// `usize::MAX`.
pub open spec fn frame_overflows(buf: Seq<u8>) -> bool {
    is_data_frame(buf) && match frame_layout(buf) {
        Some((_, start, payload_len)) => start + payload_len > usize::MAX,
        None => false,
    }
}

/// What reading `buf` gives: a close frame yields opcode 8 and no payload;
/// a complete text or binary frame yields its opcode and unmasked payload;
/// anything else (too short, incomplete, another opcode) yields nothing.
pub open spec fn read_frame_spec(buf: Seq<u8>) -> Option<(u8, Option<Seq<u8>>)> {
    if buf.len() <= 2 {
        None
    } else if (buf[0] & 0x0fu8) == 8 {
        Some((8u8, None))
    } else if !is_data_frame(buf) {
        None
    } else {
        match frame_layout(buf) {
            None => None,
            Some((masked, start, payload_len)) => {
                if buf.len() < start + payload_len {
                    None
                } else {
                    let payload = buf.subrange(start, start + payload_len);
                    Some(
                        (
                            buf[0] & 0x0fu8,
                            Some(
                                if masked {
                                    unmask(payload, buf.subrange(start - 4, start))
                                } else {
                                    payload
                                },
                            ),
                        ),
                    )
                }
            },
        }
    }
}

fn be_value_of(buf: &[u8], a: usize, b: usize) -> (r: u64)
    requires
        a <= b <= buf@.len(),
        b - a <= 8,
    ensures
        r == be_value(buf@.subrange(a as int, b as int)),
        r < pow256(b - a),
{
    let mut r: u64 = 0;
    let mut i: usize = a;
    while i < b
        invariant
            a <= i <= b <= buf@.len(),
            b - a <= 8,
            r == be_value(buf@.subrange(a as int, i as int)),
            r < pow256(i - a),
        decreases b - i,
    {
        assert(buf@.subrange(a as int, i + 1).drop_last() =~= buf@.subrange(a as int, i as int));
        proof {
            lemma_pow256_bound((i - a) as nat);
        }
        r = r * 256 + buf[i] as u64;
        i = i + 1;
    }
    r
}

/// 256 to the power `k`.
pub open spec fn pow256(k: int) -> int
    decreases k,
{
    if k <= 0 {
        1
    } else {
        256 * pow256(k - 1)
    }
}

proof fn lemma_pow256_bound(k: nat)
    requires
        k < 8,
    ensures
        256 * pow256(k as int) <= 0x1_0000_0000_0000_0000,
{
    reveal_with_fuel(pow256, 9);
    assert(pow256(7) == 0x100_0000_0000_0000);
    if k < 7 {
        lemma_pow256_mono(k as int, 7);
    }
}

proof fn lemma_pow256_mono(a: int, b: int)
    requires
        0 <= a <= b,
    ensures
        1 <= pow256(a) <= pow256(b),
    decreases b - a,
{
    if a < b {
        lemma_pow256_mono(a, b - 1);
        assert(pow256(b) == 256 * pow256(b - 1));
    } else {
        lemma_pow256_pos(a);
    }
}

proof fn lemma_pow256_pos(a: int)
    ensures
        1 <= pow256(a),
    decreases a,
{
    if a > 0 {
        lemma_pow256_pos(a - 1);
    }
}

/// Whether the frame at the start of `buffer` can be read without its
/// payload end passing `usize::MAX`.
pub fn declared_length_fits(buffer: &[u8]) -> (r: bool)
    ensures
        r == !frame_overflows(buffer@),
{
    let n = buffer.len();
    if n <= 2 {
        return true;
    }
    let opcode = buffer[0] & 0x0f;
    if opcode != 1 && opcode != 2 {
        return true;
    }
    match layout(buffer) {
        None => true,
        Some((_, start, payload_len)) => payload_len <= usize::MAX - start,
    }
}

fn layout(buffer: &[u8]) -> (r: Option<(bool, usize, usize)>)
    requires
        buffer@.len() > 2,
    ensures
        match r {
            Some((m, s, l)) => frame_layout(buffer@) == Some((m, s as int, l as int)) && s <= 14 && s <= buffer@.len(),
            None => frame_layout(buffer@) is None,
        },
{
    let n = buffer.len();
    let masked = (buffer[1] & 0b10000000) != 0;
    let len7 = buffer[1] & 0b01111111;
    let mut payload_len: usize = len7 as usize;
    let mut offset: usize = 2;
    if len7 == 126 {
        if n < 4 {
            return None;
        }
        let v = be_value_of(buffer, 2, 4);
        proof {
            reveal_with_fuel(pow256, 3);
        }
        payload_len = v as usize;
        offset = 4;
    } else if len7 == 127 {
        if n < 10 {
            return None;
        }
        payload_len = be_value_of(buffer, 2, 10) as usize;
        offset = 10;
    }
    if n < offset + 4 {
        return None;
    }
    if masked {
        Some((true, offset + 4, payload_len))
    } else {
        Some((false, offset, payload_len))
    }
}

/// Reads the frame at the start of `buffer`. A complete text or binary frame
/// clears the buffer; otherwise it is left as it is.
pub fn read_frame(buffer: &mut Vec<u8>) -> (r: Option<(u8, Option<Vec<u8>>)>)
    requires
        !frame_overflows(old(buffer)@),
    ensures
        match r {
            Some((op, Some(p))) => read_frame_spec(old(buffer)@) == Some((op, Some(p@))),
            Some((op, None)) => read_frame_spec(old(buffer)@) == Some((op, None::<Seq<u8>>)),
            None => read_frame_spec(old(buffer)@) is None,
        },
        final(buffer)@ == (if r matches Some((_, Some(_))) {
            Seq::<u8>::empty()
        } else {
            old(buffer)@
        }),
{
    let n = buffer.len();
    if n <= 2 {
        return None;
    }
    let opcode = buffer[0] & 0x0f;
    if opcode == 8 {
        return Some((opcode, None));
    }
    if opcode != 1 && opcode != 2 {
        return None;
    }
    let (masked, start, payload_len) = match layout(buffer.as_slice()) {
        None => {
            return None;
        },
        Some(l) => l,
    };
    if n < start + payload_len {
        return None;
    }
    let mut payload: Vec<u8> = Vec::new();
    let mut i: usize = 0;
    let ghost raw = buffer@.subrange(start as int, start + payload_len);
    let ghost key = if masked {
        buffer@.subrange(start - 4, start as int)
    } else {
        Seq::<u8>::empty()
    };
    while i < payload_len
        invariant
            n == buffer@.len(),
            masked ==> start >= 4,
            start + payload_len <= n,
            i <= payload_len,
            raw == buffer@.subrange(start as int, start + payload_len),
            masked ==> key == buffer@.subrange(start - 4, start as int),
            payload@.len() == i,
            forall|j: int|
                0 <= j < i ==> #[trigger] payload@[j] == if masked {
                    raw[j] ^ key[j % 4]
                } else {
                    raw[j]
                },
        decreases payload_len - i,
    {
        let b = buffer[start + i];
        if masked {
            payload.push(b ^ buffer[start - 4 + i % 4]);
        } else {
            payload.push(b);
        }
        i = i + 1;
    }
    proof {
        if masked {
            assert(payload@ =~= unmask(raw, key));
        } else {
            assert(payload@ =~= raw);
        }
    }
    buffer.clear();
    Some((opcode, Some(payload)))
}


/// The frame a client sends: like `frame_bytes` but with the mask bit set,
/// the masking `key` after the length, and the payload XORed with the key.
pub open spec fn masked_frame_bytes(fin: bool, opcode: u8, key: Seq<u8>, payload: Seq<u8>) -> Seq<u8> {
    let n = payload.len();
    let head = if n <= 125 {
        seq![first_byte(fin, opcode), (n as u8) | 0x80u8]
    } else if n <= 65535 {
        seq![first_byte(fin, opcode), 0xfeu8] + be_bytes(n, 2)
    } else {
        seq![first_byte(fin, opcode), 0xffu8] + be_bytes(n, 8)
    };
    head + key + unmask(payload, key)
}

proof fn lemma_be_bytes_len(x: nat, k: nat)
    ensures
        be_bytes(x, k).len() == k,
    decreases k,
{
    if k > 0 {
        lemma_be_bytes_len(x / 256, (k - 1) as nat);
    }
}

proof fn lemma_be_roundtrip(x: nat, k: nat)
    requires
        x < pow256(k as int),
    ensures
        be_value(be_bytes(x, k)) == x,
    decreases k,
{
    if k > 0 {
        let p = pow256(k - 1);
        assert(pow256(k as int) == 256 * p);
        assert(x / 256 < p) by (nonlinear_arith)
            requires
                x < 256 * p,
        ;
        lemma_be_roundtrip(x / 256, (k - 1) as nat);
        let b = be_bytes(x, k);
        assert(b.drop_last() =~= be_bytes(x / 256, (k - 1) as nat));
        assert(b.last() == (x % 256) as u8);
        assert((x / 256) * 256 + x % 256 == x) by (nonlinear_arith);
    } else {
        assert(x == 0);
    }
}

proof fn lemma_first_byte(fin: bool, opcode: u8)
    requires
        opcode < 16,
    ensures
        first_byte(fin, opcode) & 0x0fu8 == opcode,
{
    assert(((0x80u8 | (opcode & 0x0fu8)) & 0x0fu8) == opcode) by (bit_vector)
        requires
            opcode < 16,
    ;
    assert(((0u8 | (opcode & 0x0fu8)) & 0x0fu8) == opcode) by (bit_vector)
        requires
            opcode < 16,
    ;
}

proof fn lemma_length_byte(n: u8)
    requires
        n <= 125,
    ensures
        n & 0x80u8 == 0,
        n & 0x7fu8 == n,
        (n | 0x80u8) & 0x80u8 != 0,
        (n | 0x80u8) & 0x7fu8 == n,
{
    assert(n & 0x80u8 == 0 && n & 0x7fu8 == n && (n | 0x80u8) & 0x80u8 != 0 && (n | 0x80u8)
        & 0x7fu8 == n) by (bit_vector)
        requires
            n <= 125,
    ;
}

proof fn lemma_length_marker()
    ensures
        126u8 & 0x80u8 == 0,
        126u8 & 0x7fu8 == 126,
        127u8 & 0x80u8 == 0,
        127u8 & 0x7fu8 == 127,
        0xfeu8 & 0x80u8 != 0,
        0xfeu8 & 0x7fu8 == 126,
        0xffu8 & 0x80u8 != 0,
        0xffu8 & 0x7fu8 == 127,
{
    assert(126u8 & 0x80u8 == 0 && 126u8 & 0x7fu8 == 126 && 127u8 & 0x80u8 == 0 && 127u8 & 0x7fu8
        == 127 && 0xfeu8 & 0x80u8 != 0 && 0xfeu8 & 0x7fu8 == 126 && 0xffu8 & 0x80u8 != 0 && 0xffu8
        & 0x7fu8 == 127) by (bit_vector);
}

proof fn lemma_pow256_values()
    ensures
        pow256(2) == 65536,
        pow256(8) == 0x1_0000_0000_0000_0000,
{
    reveal_with_fuel(pow256, 9);
}

/// A text or binary frame built by the server reads back as its opcode and
/// payload, when the payload has at least four bytes (reading asks for four
/// bytes past the length field even when no masking key is sent).
pub proof fn lemma_frame_roundtrip(fin: bool, opcode: u8, payload: Seq<u8>)
    requires
        opcode == 1 || opcode == 2,
        4 <= payload.len() <= usize::MAX - 10,
    ensures
        !frame_overflows(frame_bytes(fin, opcode, payload)),
        read_frame_spec(frame_bytes(fin, opcode, payload)) == Some((opcode, Some(payload))),
{
    let buf = frame_bytes(fin, opcode, payload);
    let n = payload.len();
    lemma_first_byte(fin, opcode);
    lemma_length_marker();
    lemma_pow256_values();
    if n <= 125 {
        lemma_length_byte(n as u8);
        assert(buf.subrange(2, 2 + n as int) =~= payload);
    } else if n <= 65535 {
        lemma_be_bytes_len(n, 2);
        lemma_be_roundtrip(n, 2);
        assert(buf.subrange(2, 4) =~= be_bytes(n, 2));
        assert(buf.subrange(4, 4 + n as int) =~= payload);
    } else {
        lemma_be_bytes_len(n, 8);
        lemma_be_roundtrip(n, 8);
        assert(buf.subrange(2, 10) =~= be_bytes(n, 8));
        assert(buf.subrange(10, 10 + n as int) =~= payload);
    }
}

/// Unmasking undoes masking with the same key.
pub proof fn lemma_unmask_involution(payload: Seq<u8>, key: Seq<u8>)
    requires
        key.len() == 4,
    ensures
        unmask(unmask(payload, key), key) == payload,
{
    assert forall|i: int| 0 <= i < payload.len() implies #[trigger] unmask(unmask(payload, key), key)[i]
        == payload[i] by {
        let a = payload[i];
        let b = key[i % 4];
        assert((a ^ b) ^ b == a) by (bit_vector);
    }
    assert(unmask(unmask(payload, key), key) =~= payload);
}

/// A frame masked by a client reads back as the payload before masking.
pub proof fn lemma_masked_frame_roundtrip(fin: bool, opcode: u8, key: Seq<u8>, payload: Seq<u8>)
    requires
        opcode == 1 || opcode == 2,
        key.len() == 4,
        payload.len() <= usize::MAX - 14,
    ensures
        !frame_overflows(masked_frame_bytes(fin, opcode, key, payload)),
        read_frame_spec(masked_frame_bytes(fin, opcode, key, payload)) == Some(
            (opcode, Some(payload)),
        ),
{
    let buf = masked_frame_bytes(fin, opcode, key, payload);
    let n = payload.len();
    let masked = unmask(payload, key);
    lemma_first_byte(fin, opcode);
    lemma_length_marker();
    lemma_pow256_values();
    lemma_unmask_involution(payload, key);
    if n <= 125 {
        lemma_length_byte(n as u8);
        assert(buf.subrange(2, 6) =~= key);
        assert(buf.subrange(6, 6 + n as int) =~= masked);
    } else if n <= 65535 {
        lemma_be_bytes_len(n, 2);
        lemma_be_roundtrip(n, 2);
        assert(buf.subrange(2, 4) =~= be_bytes(n, 2));
        assert(buf.subrange(4, 8) =~= key);
        assert(buf.subrange(8, 8 + n as int) =~= masked);
    } else {
        lemma_be_bytes_len(n, 8);
        lemma_be_roundtrip(n, 8);
        assert(buf.subrange(2, 10) =~= be_bytes(n, 8));
        assert(buf.subrange(10, 14) =~= key);
        assert(buf.subrange(14, 14 + n as int) =~= masked);
    }
}


proof fn lemma_first_byte_bits(fin: bool, opcode: u8)
    ensures
        (first_byte(fin, opcode) & 0x80u8 != 0) == fin,
        first_byte(fin, opcode) & 0x0fu8 == opcode & 0x0fu8,
{
    assert((0x80u8 | (opcode & 0x0fu8)) & 0x80u8 != 0 && (0x80u8 | (opcode & 0x0fu8)) & 0x0fu8
        == opcode & 0x0fu8) by (bit_vector);
    assert((0u8 | (opcode & 0x0fu8)) & 0x80u8 == 0 && (0u8 | (opcode & 0x0fu8)) & 0x0fu8 == opcode
        & 0x0fu8) by (bit_vector);
}

/// A built frame is its header followed by the payload, byte for byte: the
/// header carries the FIN bit, the low four bits of the opcode, no mask bit,
/// and the payload length in 7 bits (up to 125), or 126 and two length bytes
/// (up to 65535), or 127 and eight length bytes.
pub proof fn lemma_frame_layout(fin: bool, opcode: u8, payload: Seq<u8>)
    requires
        payload.len() <= usize::MAX,
    ensures
        ({
            let f = frame_bytes(fin, opcode, payload);
            let n = payload.len();
            &&& f.len() >= n + 2
            &&& f.subrange(f.len() - n, f.len() as int) == payload
            &&& (f[0] & 0x80u8 != 0) == fin
            &&& f[0] & 0x0fu8 == opcode & 0x0fu8
            &&& f[1] & 0x80u8 == 0
            &&& n <= 125 ==> f.len() == n + 2 && f[1] == n
            &&& 125 < n <= 65535 ==> f.len() == n + 4 && f[1] == 126 && be_value(f.subrange(2, 4))
                == n
            &&& 65535 < n ==> f.len() == n + 10 && f[1] == 127 && be_value(f.subrange(2, 10)) == n
        }),
{
    let f = frame_bytes(fin, opcode, payload);
    let n = payload.len();
    lemma_first_byte_bits(fin, opcode);
    lemma_length_marker();
    lemma_pow256_values();
    if n <= 125 {
        lemma_length_byte(n as u8);
    } else if n <= 65535 {
        lemma_be_bytes_len(n, 2);
        lemma_be_roundtrip(n, 2);
        assert(f.subrange(2, 4) =~= be_bytes(n, 2));
    } else {
        lemma_be_bytes_len(n, 8);
        assert(usize::MAX < pow256(8)) by {
            assert(usize::MAX <= 0xffff_ffff_ffff_ffff);
        }
        lemma_be_roundtrip(n, 8);
        assert(f.subrange(2, 10) =~= be_bytes(n, 8));
    }
    assert(f.subrange(f.len() - n, f.len() as int) =~= payload);
}

/// The payload read from a frame is the bytes that follow its header (after
/// the four key bytes when masked), unmasked by XOR with the key byte at the
/// same position modulo 4; its length is the one the header declares.
pub proof fn lemma_read_frame_payload(buf: Seq<u8>)
    ensures
        read_frame_spec(buf) matches Some((op, Some(p))) ==> {
            let len7 = buf[1] & 0x7fu8;
            let h: int = if len7 == 126 {
                4
            } else if len7 == 127 {
                10
            } else {
                2
            };
            &&& buf.len() > 2
            &&& op == buf[0] & 0x0fu8
            &&& (op == 1 || op == 2)
            &&& len7 < 126 ==> p.len() == len7
            &&& len7 == 126 ==> p.len() == be_value(buf.subrange(2, 4))
            &&& len7 == 127 ==> p.len() == (be_value(buf.subrange(2, 10)) as u64) as usize
            &&& buf[1] & 0x80u8 == 0 ==> h + p.len() <= buf.len() && p == buf.subrange(h, h + p.len())
            &&& buf[1] & 0x80u8 != 0 ==> h + 4 + p.len() <= buf.len() && forall|i: int|
                0 <= i < p.len() ==> #[trigger] p[i] == buf[h + 4 + i] ^ buf[h + i % 4]
        },
{
}

} // verus!
