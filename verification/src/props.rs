//! Laws of the codec, stated over the specification-level encoders and
//! decoders and proved once for all packets.
//!
//! The public proof functions at the end of this module are the codec's
//! guarantees: encoding then decoding a schema-valid packet returns it
//! unchanged; a count-prefixed sequence consumes exactly its declared
//! element count; trailing bytes beyond the schema fail as too long; and a
//! truncated buffer fails as too short.

use vstd::arithmetic::div_mod::{lemma_div_denominator, lemma_fundamental_div_mod};
use vstd::prelude::*;
use vstd::utf8::*;

use crate::protocol::{
    branch_wf, content_type_code, content_type_of, enc_branch, enc_branch_list, enc_ext_info,
    enc_ext_list, enc_id_info, enc_id_list, enc_md5_info, enc_md5_list, enc_packet, nul_free,
    packet_rule_ok, packet_valid, packet_wire_valid, sdec_branch, sdec_branch_list,
    sdec_content_type, sdec_ext_info, sdec_ext_list, sdec_fields, sdec_id_info, sdec_id_list,
    sdec_md5_bytes, sdec_md5_info, sdec_md5_list, sread_packet, BranchV,
    ClientPacketV, ContentType, ExtIdInfoV, ExtIdMd5InfoV, IdInfoV,
};
use crate::protocol::{
    enc_dep_list, enc_server_body, enc_server_frame, enc_tag_list, sdec_dep_list,
    sdec_server_fields, sdec_server_info, sdec_tag_list, server_frame_len, server_info_encodable,
    server_info_wire_valid, ServerInfoV,
};
use crate::wire::{
    enc_str, enc_u16_le, enc_u32_le, enc_u8, find_nul, sdec_str, sdec_u16, sdec_u32, sdec_u8,
    u16_from_le, u32_from_le, Error,
};

verus! {

// ------------------------------------------------------------------
// Splitting a buffer along a concatenation
// ------------------------------------------------------------------

proof fn lemma_split_subrange(b: Seq<u8>, pos: int, x: Seq<u8>, y: Seq<u8>)
    requires
        0 <= pos,
        pos + x.len() + y.len() <= b.len(),
        b.subrange(pos, pos + x.len() + y.len()) == x + y,
    ensures
        b.subrange(pos, pos + x.len()) == x,
        b.subrange(pos + x.len(), pos + x.len() + y.len()) == y,
{
    let whole = b.subrange(pos, pos + x.len() + y.len());
    assert forall|i: int| 0 <= i < x.len() implies b.subrange(pos, pos + x.len() as int)[i]
        == x[i] by {
        assert(whole[i] == (x + y)[i]);
    }
    assert(b.subrange(pos, pos + x.len() as int) =~= x);
    assert forall|i: int| 0 <= i < y.len() implies b.subrange(
        pos + x.len(),
        pos + x.len() + y.len(),
    )[i] == y[i] by {
        assert(whole[x.len() + i] == (x + y)[x.len() + i]);
    }
    assert(b.subrange(pos + x.len(), pos + x.len() + y.len()) =~= y);
}

// ------------------------------------------------------------------
// Integer fields decode back to the value that was encoded
// ------------------------------------------------------------------

proof fn lemma_sdec_u8_exact(b: Seq<u8>, pos: int, v: u8)
    requires
        0 <= pos,
        pos + 1 <= b.len(),
        b.subrange(pos, pos + 1) == enc_u8(v),
    ensures
        sdec_u8(b, pos) == Ok::<(u8, int), Error>((v, pos + 1)),
{
    assert(b[pos] == b.subrange(pos, pos + 1)[0]);
}

proof fn lemma_sdec_u16_exact(b: Seq<u8>, pos: int, v: u16)
    requires
        0 <= pos,
        pos + 2 <= b.len(),
        b.subrange(pos, pos + 2) == enc_u16_le(v),
    ensures
        sdec_u16(b, pos) == Ok::<(u16, int), Error>((v, pos + 2)),
{
    assert(b[pos] == b.subrange(pos, pos + 2)[0]);
    assert(b[pos + 1] == b.subrange(pos, pos + 2)[1]);
    lemma_fundamental_div_mod(v as int, 256);
    assert(u16_from_le((v % 256) as u8, (v / 256) as u8) == v);
}

proof fn lemma_sdec_u32_exact(b: Seq<u8>, pos: int, v: u32)
    requires
        0 <= pos,
        pos + 4 <= b.len(),
        b.subrange(pos, pos + 4) == enc_u32_le(v),
    ensures
        sdec_u32(b, pos) == Ok::<(u32, int), Error>((v, pos + 4)),
{
    assert(b[pos] == b.subrange(pos, pos + 4)[0]);
    assert(b[pos + 1] == b.subrange(pos, pos + 4)[1]);
    assert(b[pos + 2] == b.subrange(pos, pos + 4)[2]);
    assert(b[pos + 3] == b.subrange(pos, pos + 4)[3]);
    let x = v as int;
    lemma_fundamental_div_mod(x, 256);
    lemma_fundamental_div_mod(x / 256, 256);
    lemma_fundamental_div_mod(x / 65536, 256);
    lemma_div_denominator(x, 256, 256);
    lemma_div_denominator(x, 65536, 256);
    assert(x / 256 / 256 == x / 65536);
    assert(x / 65536 / 256 == x / 16777216);
    assert(x % 256 + (x / 256 % 256) * 256 + (x / 65536 % 256) * 65536 + (x / 16777216)
        * 16777216 == x) by (nonlinear_arith)
        requires
            x == 256 * (x / 256) + x % 256,
            x / 256 == 256 * (x / 256 / 256) + (x / 256) % 256,
            x / 65536 == 256 * (x / 65536 / 256) + (x / 65536) % 256,
            x / 256 / 256 == x / 65536,
            x / 65536 / 256 == x / 16777216,
    ;
    assert(u32_from_le(
        (v % 256) as u8,
        ((v / 256) % 256) as u8,
        ((v / 65536) % 256) as u8,
        (v / 16777216) as u8,
    ) == v);
}

// ------------------------------------------------------------------
// Strings: the encoding of a nul-free string carries no zero byte, so the
// scan for the terminator lands exactly on the byte the encoder wrote
// ------------------------------------------------------------------

proof fn lemma_encode_scalar_nonzero(c: u32)
    requires
        is_scalar(c),
        c != 0,
    ensures
        forall|i: int| 0 <= i < encode_scalar(c).len() ==> encode_scalar(c)[i] != 0,
{
    if has_width_1_encoding(c) {
        assert(leading_byte_width_1(c) != 0) by (bit_vector)
            requires
                c <= 0x7f && c != 0,
        ;
    } else if has_width_2_encoding(c) {
        assert(leading_byte_width_2(c) != 0 && last_continuation_byte(c) != 0) by (bit_vector);
    } else if has_width_3_encoding(c) {
        assert(leading_byte_width_3(c) != 0 && second_last_continuation_byte(c) != 0
            && last_continuation_byte(c) != 0) by (bit_vector);
    } else {
        assert(leading_byte_width_4(c) != 0 && third_last_continuation_byte(c) != 0
            && second_last_continuation_byte(c) != 0 && last_continuation_byte(c) != 0)
            by (bit_vector);
    }
}

proof fn lemma_encode_utf8_nul_free(s: Seq<char>)
    requires
        nul_free(s),
    ensures
        forall|i: int| 0 <= i < encode_utf8(s).len() ==> encode_utf8(s)[i] != 0,
    decreases s.len(),
{
    if s.len() > 0 {
        char_is_scalar(s[0]);
        assert((s[0] as u32) != 0);
        lemma_encode_scalar_nonzero(s[0] as u32);
        assert(nul_free(s.drop_first()));
        lemma_encode_utf8_nul_free(s.drop_first());
        let head = encode_scalar(s[0] as u32);
        let tail = encode_utf8(s.drop_first());
        assert(encode_utf8(s) == head + tail);
        assert forall|i: int| 0 <= i < encode_utf8(s).len() implies encode_utf8(s)[i] != 0 by {
            if i < head.len() {
                assert((head + tail)[i] == head[i]);
            } else {
                assert((head + tail)[i] == tail[i - head.len()]);
            }
        }
    }
}

proof fn lemma_find_nul_here(b: Seq<u8>, pos: int, z: int)
    requires
        0 <= pos <= z < b.len(),
        b[z] == 0,
        forall|j: int| pos <= j < z ==> b[j] != 0,
    ensures
        find_nul(b, pos) == Some(z),
    decreases z - pos,
{
    if pos < z {
        lemma_find_nul_here(b, pos + 1, z);
    }
}

proof fn lemma_find_nul_none(b: Seq<u8>, pos: int)
    requires
        0 <= pos <= b.len(),
        forall|j: int| pos <= j < b.len() ==> b[j] != 0,
    ensures
        find_nul(b, pos) is None,
    decreases b.len() - pos,
{
    if pos < b.len() {
        lemma_find_nul_none(b, pos + 1);
    }
}

/// Decoding from the exact bytes the string encoder wrote returns the
/// original string, whatever bytes follow the terminator.
proof fn lemma_sdec_str_exact(b: Seq<u8>, pos: int, s: Seq<char>)
    requires
        0 <= pos,
        nul_free(s),
        pos + enc_str(s).len() <= b.len(),
        b.subrange(pos, pos + enc_str(s).len()) == enc_str(s),
    ensures
        sdec_str(b, pos) == Ok::<(Seq<char>, int), Error>((s, pos + enc_str(s).len())),
{
    let u = encode_utf8(s);
    let z = pos + u.len();
    lemma_encode_utf8_nul_free(s);
    assert forall|j: int| pos <= j < z implies b[j] != 0 by {
        assert(b[j] == b.subrange(pos, pos + enc_str(s).len())[j - pos]);
        assert(enc_str(s)[j - pos] == u[j - pos]);
    }
    assert(b[z] == b.subrange(pos, pos + enc_str(s).len())[u.len() as int]);
    assert(enc_str(s)[u.len() as int] == 0);
    lemma_find_nul_here(b, pos, z);
    assert(b.subrange(pos, z) =~= u) by {
        assert forall|j: int| 0 <= j < u.len() implies b.subrange(pos, z)[j] == u[j] by {
            assert(b[pos + j] == b.subrange(pos, pos + enc_str(s).len())[j]);
            assert(enc_str(s)[j] == u[j]);
        }
    }
    encode_utf8_valid_utf8(s);
    encode_utf8_decode_utf8(s);
}

/// A buffer that ends inside the encoding of a nul-free string has no
/// terminator left, so string decoding reports it too short.
proof fn lemma_sdec_str_short(b: Seq<u8>, pos: int, s: Seq<char>)
    requires
        0 <= pos <= b.len(),
        nul_free(s),
        b.len() - pos < enc_str(s).len(),
        b.subrange(pos, b.len() as int) == enc_str(s).subrange(0, b.len() - pos),
    ensures
        sdec_str(b, pos) == Err::<(Seq<char>, int), Error>(Error::PacketTooShort),
{
    let u = encode_utf8(s);
    lemma_encode_utf8_nul_free(s);
    assert forall|j: int| pos <= j < b.len() implies b[j] != 0 by {
        assert(b[j] == b.subrange(pos, b.len() as int)[j - pos]);
        assert(enc_str(s).subrange(0, b.len() - pos)[j - pos] == enc_str(s)[j - pos]);
        assert(j - pos < u.len());
        assert(enc_str(s)[j - pos] == u[j - pos]);
    }
    lemma_find_nul_none(b, pos);
}

// ------------------------------------------------------------------
// Content types
// ------------------------------------------------------------------

proof fn lemma_content_type_code_of(ct: ContentType)
    ensures
        1 <= content_type_code(ct) <= 10,
        content_type_of(content_type_code(ct)) == ct,
{
}

proof fn lemma_sdec_content_type_exact(b: Seq<u8>, pos: int, ct: ContentType)
    requires
        0 <= pos,
        pos + 1 <= b.len(),
        b.subrange(pos, pos + 1) == enc_u8(content_type_code(ct)),
    ensures
        sdec_content_type(b, pos) == Ok::<(ContentType, int), Error>((ct, pos + 1)),
{
    lemma_sdec_u8_exact(b, pos, content_type_code(ct));
    lemma_content_type_code_of(ct);
}

// ------------------------------------------------------------------
// A buffer cut somewhere inside a concatenation
// ------------------------------------------------------------------

proof fn lemma_split_prefix(b: Seq<u8>, pos: int, x: Seq<u8>, y: Seq<u8>)
    requires
        0 <= pos <= b.len(),
        b.len() - pos <= x.len() + y.len(),
        b.subrange(pos, b.len() as int) == (x + y).subrange(0, b.len() - pos),
    ensures
        b.len() - pos <= x.len() ==> b.subrange(pos, b.len() as int) == x.subrange(
            0,
            b.len() - pos,
        ),
        b.len() - pos > x.len() ==> b.subrange(pos, pos + x.len()) == x && b.subrange(
            pos + x.len(),
            b.len() as int,
        ) == y.subrange(0, b.len() - pos - x.len()),
{
    let k = b.len() - pos;
    if k <= x.len() {
        assert forall|i: int| 0 <= i < k implies b.subrange(pos, b.len() as int)[i]
            == x.subrange(0, k)[i] by {
            assert((x + y).subrange(0, k)[i] == (x + y)[i]);
        }
        assert(b.subrange(pos, b.len() as int) =~= x.subrange(0, k));
    } else {
        assert forall|i: int| 0 <= i < x.len() implies b.subrange(pos, pos + x.len())[i]
            == x[i] by {
            assert(b[pos + i] == b.subrange(pos, b.len() as int)[i]);
            assert((x + y).subrange(0, k)[i] == (x + y)[i]);
        }
        assert(b.subrange(pos, pos + x.len()) =~= x);
        assert forall|i: int| 0 <= i < k - x.len() implies #[trigger] b.subrange(
            pos + x.len(),
            b.len() as int,
        )[i] == y.subrange(0, k - x.len())[i] by {
            assert(b[pos + x.len() + i] == b.subrange(pos, b.len() as int)[x.len() + i]);
            assert((x + y).subrange(0, k)[x.len() + i] == (x + y)[x.len() + i]);
        }
        assert(b.subrange(pos + x.len(), b.len() as int) =~= y.subrange(0, k - x.len()));
    }
}

// ------------------------------------------------------------------
// Sequence elements decode exactly, and truncation makes them too short
// ------------------------------------------------------------------

proof fn lemma_sdec_branch_exact(b: Seq<u8>, pos: int, v: BranchV)
    requires
        0 <= pos,
        branch_wf(v),
        pos + enc_branch(v).len() <= b.len(),
        b.subrange(pos, pos + enc_branch(v).len()) == enc_branch(v),
    ensures
        sdec_branch(b, pos) == Ok::<(BranchV, int), Error>((v, pos + enc_branch(v).len())),
{
    lemma_split_subrange(b, pos, enc_str(v.branch), enc_str(v.version));
    lemma_sdec_str_exact(b, pos, v.branch);
    lemma_sdec_str_exact(b, pos + enc_str(v.branch).len(), v.version);
}

proof fn lemma_sdec_branch_short(b: Seq<u8>, pos: int, v: BranchV)
    requires
        0 <= pos <= b.len(),
        branch_wf(v),
        b.len() - pos < enc_branch(v).len(),
        b.subrange(pos, b.len() as int) == enc_branch(v).subrange(0, b.len() - pos),
    ensures
        sdec_branch(b, pos) == Err::<(BranchV, int), Error>(Error::PacketTooShort),
{
    let x = enc_str(v.branch);
    let y = enc_str(v.version);
    let k = b.len() - pos;
    lemma_split_prefix(b, pos, x, y);
    if k < x.len() {
        lemma_sdec_str_short(b, pos, v.branch);
    } else if k == x.len() {
        assert(b.subrange(pos, pos + x.len()) =~= x) by {
            assert(x.subrange(0, k) =~= x);
        }
        lemma_sdec_str_exact(b, pos, v.branch);
        assert(b.subrange(pos + x.len(), b.len() as int) =~= y.subrange(0, 0)) by {
            assert(b.len() - (pos + x.len()) == 0);
        }
        lemma_sdec_str_short(b, pos + x.len(), v.version);
    } else {
        lemma_sdec_str_exact(b, pos, v.branch);
        lemma_sdec_str_short(b, pos + x.len(), v.version);
    }
}

proof fn lemma_sdec_id_exact(b: Seq<u8>, pos: int, v: IdInfoV)
    requires
        0 <= pos,
        pos + 4 <= b.len(),
        b.subrange(pos, pos + 4) == enc_id_info(v),
    ensures
        sdec_id_info(b, pos) == Ok::<(IdInfoV, int), Error>((v, pos + 4)),
{
    lemma_sdec_u32_exact(b, pos, v.content_id);
}

proof fn lemma_sdec_ext_exact(b: Seq<u8>, pos: int, v: ExtIdInfoV)
    requires
        0 <= pos,
        pos + 5 <= b.len(),
        b.subrange(pos, pos + 5) == enc_ext_info(v),
    ensures
        sdec_ext_info(b, pos) == Ok::<(ExtIdInfoV, int), Error>((v, pos + 5)),
{
    lemma_split_subrange(b, pos, enc_u8(content_type_code(v.content_type)), enc_u32_le(
        v.unique_id,
    ));
    lemma_sdec_content_type_exact(b, pos, v.content_type);
    lemma_sdec_u32_exact(b, pos + 1, v.unique_id);
}

proof fn lemma_sdec_ext_short(b: Seq<u8>, pos: int, v: ExtIdInfoV)
    requires
        0 <= pos <= b.len(),
        b.len() - pos < 5,
        b.subrange(pos, b.len() as int) == enc_ext_info(v).subrange(0, b.len() - pos),
    ensures
        sdec_ext_info(b, pos) == Err::<(ExtIdInfoV, int), Error>(Error::PacketTooShort),
{
    let k = b.len() - pos;
    if k == 0 {
    } else {
        assert(b[pos] == enc_ext_info(v)[0]) by {
            assert(b[pos] == b.subrange(pos, b.len() as int)[0]);
        }
        assert(enc_ext_info(v)[0] == content_type_code(v.content_type));
        lemma_content_type_code_of(v.content_type);
    }
}

proof fn lemma_sdec_md5_info_exact(b: Seq<u8>, pos: int, v: ExtIdMd5InfoV)
    requires
        0 <= pos,
        v.md5.len() == 16,
        pos + 21 <= b.len(),
        b.subrange(pos, pos + 21) == enc_md5_info(v),
    ensures
        sdec_md5_info(b, pos) == Ok::<(ExtIdMd5InfoV, int), Error>((v, pos + 21)),
{
    let e0 = enc_u8(content_type_code(v.content_type));
    let e1 = enc_u32_le(v.unique_id);
    assert(enc_md5_info(v) =~= e0 + (e1 + v.md5));
    lemma_split_subrange(b, pos, e0, e1 + v.md5);
    lemma_split_subrange(b, pos + 1, e1, v.md5);
    lemma_sdec_content_type_exact(b, pos, v.content_type);
    lemma_sdec_u32_exact(b, pos + 1, v.unique_id);
    assert(sdec_md5_bytes(b, pos + 5) == Ok::<(Seq<u8>, int), Error>((v.md5, pos + 21))) by {
        assert(b.subrange(pos + 5, pos + 21) == v.md5);
    }
}

proof fn lemma_sdec_md5_info_short(b: Seq<u8>, pos: int, v: ExtIdMd5InfoV)
    requires
        0 <= pos <= b.len(),
        v.md5.len() == 16,
        b.len() - pos < 21,
        b.subrange(pos, b.len() as int) == enc_md5_info(v).subrange(0, b.len() - pos),
    ensures
        sdec_md5_info(b, pos) == Err::<(ExtIdMd5InfoV, int), Error>(Error::PacketTooShort),
{
    let k = b.len() - pos;
    let e0 = enc_u8(content_type_code(v.content_type));
    let e1 = enc_u32_le(v.unique_id);
    assert(enc_md5_info(v) =~= e0 + (e1 + v.md5));
    lemma_split_prefix(b, pos, e0, e1 + v.md5);
    if k == 0 {
    } else {
        assert(b[pos] == enc_md5_info(v)[0]) by {
            assert(b[pos] == b.subrange(pos, b.len() as int)[0]);
        }
        assert(enc_md5_info(v)[0] == content_type_code(v.content_type)) by {
            assert((e0 + (e1 + v.md5))[0] == e0[0]);
        }
        lemma_content_type_code_of(v.content_type);
        if k < 5 {
        } else {
            lemma_split_prefix(b, pos + 1, e1, v.md5);
            assert(b.subrange(pos + 1, pos + 5) =~= e1) by {
                assert(e1.subrange(0, 4) =~= e1);
            }
            lemma_sdec_u32_exact(b, pos + 1, v.unique_id);
        }
    }
}

// ------------------------------------------------------------------
// Count-prefixed sequences decode exactly their declared count
// ------------------------------------------------------------------

proof fn lemma_sdec_branch_list_exact(b: Seq<u8>, pos: int, items: Seq<BranchV>)
    requires
        0 <= pos,
        forall|i: int| 0 <= i < items.len() ==> branch_wf(#[trigger] items[i]),
        pos + enc_branch_list(items).len() <= b.len(),
        b.subrange(pos, pos + enc_branch_list(items).len()) == enc_branch_list(items),
    ensures
        sdec_branch_list(b, pos, items.len()) == Ok::<(Seq<BranchV>, int), Error>(
            (items, pos + enc_branch_list(items).len()),
        ),
    decreases items.len(),
{
    if items.len() == 0 {
        assert(items =~= Seq::<BranchV>::empty());
    } else {
        let x = enc_branch(items[0]);
        let y = enc_branch_list(items.drop_first());
        lemma_split_subrange(b, pos, x, y);
        lemma_sdec_branch_exact(b, pos, items[0]);
        lemma_sdec_branch_list_exact(b, pos + x.len(), items.drop_first());
        assert(seq![items[0]] + items.drop_first() =~= items);
    }
}

proof fn lemma_sdec_branch_list_short(b: Seq<u8>, pos: int, items: Seq<BranchV>)
    requires
        0 <= pos <= b.len(),
        forall|i: int| 0 <= i < items.len() ==> branch_wf(#[trigger] items[i]),
        b.len() - pos < enc_branch_list(items).len(),
        b.subrange(pos, b.len() as int) == enc_branch_list(items).subrange(0, b.len() - pos),
    ensures
        sdec_branch_list(b, pos, items.len()) == Err::<(Seq<BranchV>, int), Error>(
            Error::PacketTooShort,
        ),
    decreases items.len(),
{
    let k = b.len() - pos;
    let x = enc_branch(items[0]);
    let y = enc_branch_list(items.drop_first());
    lemma_split_prefix(b, pos, x, y);
    if k < x.len() {
        lemma_sdec_branch_short(b, pos, items[0]);
    } else {
        if k == x.len() {
            assert(b.subrange(pos, pos + x.len()) =~= x) by {
                assert(x.subrange(0, k) =~= x);
            }
            assert(b.subrange(pos + x.len(), b.len() as int) =~= y.subrange(0, 0));
        }
        lemma_sdec_branch_exact(b, pos, items[0]);
        lemma_sdec_branch_list_short(b, pos + x.len(), items.drop_first());
    }
}

proof fn lemma_sdec_id_list_exact(b: Seq<u8>, pos: int, items: Seq<IdInfoV>)
    requires
        0 <= pos,
        pos + enc_id_list(items).len() <= b.len(),
        b.subrange(pos, pos + enc_id_list(items).len()) == enc_id_list(items),
    ensures
        sdec_id_list(b, pos, items.len()) == Ok::<(Seq<IdInfoV>, int), Error>(
            (items, pos + enc_id_list(items).len()),
        ),
    decreases items.len(),
{
    if items.len() == 0 {
        assert(items =~= Seq::<IdInfoV>::empty());
    } else {
        let x = enc_id_info(items[0]);
        let y = enc_id_list(items.drop_first());
        lemma_split_subrange(b, pos, x, y);
        lemma_sdec_id_exact(b, pos, items[0]);
        lemma_sdec_id_list_exact(b, pos + 4, items.drop_first());
        assert(seq![items[0]] + items.drop_first() =~= items);
    }
}

proof fn lemma_sdec_id_list_short(b: Seq<u8>, pos: int, items: Seq<IdInfoV>)
    requires
        0 <= pos <= b.len(),
        b.len() - pos < enc_id_list(items).len(),
        b.subrange(pos, b.len() as int) == enc_id_list(items).subrange(0, b.len() - pos),
    ensures
        sdec_id_list(b, pos, items.len()) == Err::<(Seq<IdInfoV>, int), Error>(
            Error::PacketTooShort,
        ),
    decreases items.len(),
{
    let k = b.len() - pos;
    let x = enc_id_info(items[0]);
    let y = enc_id_list(items.drop_first());
    lemma_split_prefix(b, pos, x, y);
    if k < 4 {
    } else {
        if k == x.len() {
            assert(b.subrange(pos, pos + x.len()) =~= x) by {
                assert(x.subrange(0, k) =~= x);
            }
            assert(b.subrange(pos + x.len(), b.len() as int) =~= y.subrange(0, 0));
        }
        lemma_sdec_id_exact(b, pos, items[0]);
        lemma_sdec_id_list_short(b, pos + 4, items.drop_first());
    }
}

/// The law of count-prefixed sequences: after its one-byte declared count,
/// a sequence decode consumes exactly that many elements' encodings and
/// stops at their boundary, however many bytes remain in the buffer after
/// it.
pub proof fn lemma_seq_consumes_declared_count(b: Seq<u8>, pos: int, items: Seq<ExtIdInfoV>)
    requires
        0 <= pos,
        items.len() <= 255,
        pos + 1 + enc_ext_list(items).len() <= b.len(),
        b.subrange(pos, pos + 1) == enc_u8(items.len() as u8),
        b.subrange(pos + 1, pos + 1 + enc_ext_list(items).len()) == enc_ext_list(items),
    ensures
        sdec_u8(b, pos) == Ok::<(u8, int), Error>((items.len() as u8, pos + 1)),
        sdec_ext_list(b, pos + 1, items.len()) == Ok::<(Seq<ExtIdInfoV>, int), Error>(
            (items, pos + 1 + enc_ext_list(items).len()),
        ),
{
    lemma_sdec_u8_exact(b, pos, items.len() as u8);
    lemma_sdec_ext_list_exact(b, pos + 1, items);
}

proof fn lemma_sdec_ext_list_exact(b: Seq<u8>, pos: int, items: Seq<ExtIdInfoV>)
    requires
        0 <= pos,
        pos + enc_ext_list(items).len() <= b.len(),
        b.subrange(pos, pos + enc_ext_list(items).len()) == enc_ext_list(items),
    ensures
        sdec_ext_list(b, pos, items.len()) == Ok::<(Seq<ExtIdInfoV>, int), Error>(
            (items, pos + enc_ext_list(items).len()),
        ),
    decreases items.len(),
{
    if items.len() == 0 {
        assert(items =~= Seq::<ExtIdInfoV>::empty());
    } else {
        let x = enc_ext_info(items[0]);
        let y = enc_ext_list(items.drop_first());
        lemma_split_subrange(b, pos, x, y);
        lemma_sdec_ext_exact(b, pos, items[0]);
        lemma_sdec_ext_list_exact(b, pos + 5, items.drop_first());
        assert(seq![items[0]] + items.drop_first() =~= items);
    }
}

proof fn lemma_sdec_ext_list_short(b: Seq<u8>, pos: int, items: Seq<ExtIdInfoV>)
    requires
        0 <= pos <= b.len(),
        b.len() - pos < enc_ext_list(items).len(),
        b.subrange(pos, b.len() as int) == enc_ext_list(items).subrange(0, b.len() - pos),
    ensures
        sdec_ext_list(b, pos, items.len()) == Err::<(Seq<ExtIdInfoV>, int), Error>(
            Error::PacketTooShort,
        ),
    decreases items.len(),
{
    let k = b.len() - pos;
    let x = enc_ext_info(items[0]);
    let y = enc_ext_list(items.drop_first());
    lemma_split_prefix(b, pos, x, y);
    if k < 5 {
        lemma_sdec_ext_short(b, pos, items[0]);
    } else {
        if k == x.len() {
            assert(b.subrange(pos, pos + x.len()) =~= x) by {
                assert(x.subrange(0, k) =~= x);
            }
            assert(b.subrange(pos + x.len(), b.len() as int) =~= y.subrange(0, 0));
        }
        lemma_sdec_ext_exact(b, pos, items[0]);
        lemma_sdec_ext_list_short(b, pos + 5, items.drop_first());
    }
}

proof fn lemma_sdec_md5_list_exact(b: Seq<u8>, pos: int, items: Seq<ExtIdMd5InfoV>)
    requires
        0 <= pos,
        forall|i: int| 0 <= i < items.len() ==> (#[trigger] items[i]).md5.len() == 16,
        pos + enc_md5_list(items).len() <= b.len(),
        b.subrange(pos, pos + enc_md5_list(items).len()) == enc_md5_list(items),
    ensures
        sdec_md5_list(b, pos, items.len()) == Ok::<(Seq<ExtIdMd5InfoV>, int), Error>(
            (items, pos + enc_md5_list(items).len()),
        ),
    decreases items.len(),
{
    if items.len() == 0 {
        assert(items =~= Seq::<ExtIdMd5InfoV>::empty());
    } else {
        let x = enc_md5_info(items[0]);
        let y = enc_md5_list(items.drop_first());
        lemma_split_subrange(b, pos, x, y);
        lemma_sdec_md5_info_exact(b, pos, items[0]);
        lemma_sdec_md5_list_exact(b, pos + 21, items.drop_first());
        assert(seq![items[0]] + items.drop_first() =~= items);
    }
}

proof fn lemma_sdec_md5_list_short(b: Seq<u8>, pos: int, items: Seq<ExtIdMd5InfoV>)
    requires
        0 <= pos <= b.len(),
        forall|i: int| 0 <= i < items.len() ==> (#[trigger] items[i]).md5.len() == 16,
        b.len() - pos < enc_md5_list(items).len(),
        b.subrange(pos, b.len() as int) == enc_md5_list(items).subrange(0, b.len() - pos),
    ensures
        sdec_md5_list(b, pos, items.len()) == Err::<(Seq<ExtIdMd5InfoV>, int), Error>(
            Error::PacketTooShort,
        ),
    decreases items.len(),
{
    let k = b.len() - pos;
    let x = enc_md5_info(items[0]);
    let y = enc_md5_list(items.drop_first());
    lemma_split_prefix(b, pos, x, y);
    if k < 21 {
        lemma_sdec_md5_info_short(b, pos, items[0]);
    } else {
        if k == x.len() {
            assert(b.subrange(pos, pos + x.len()) =~= x) by {
                assert(x.subrange(0, k) =~= x);
            }
            assert(b.subrange(pos + x.len(), b.len() as int) =~= y.subrange(0, 0));
        }
        lemma_sdec_md5_info_exact(b, pos, items[0]);
        lemma_sdec_md5_list_short(b, pos + 21, items.drop_first());
    }
}

// ------------------------------------------------------------------
// Whole packets
// ------------------------------------------------------------------

/// Decoding from the exact bytes the packet encoder wrote recovers the
/// packet, wherever the buffer may continue afterwards.  The one exception
/// is a `ClientInfoList` without branches: bytes after its fixed fields
/// would be taken for a present trailing optional, so that shape demands
/// an exactly-ending buffer.
#[verifier::rlimit(60)]
#[verifier::spinoff_prover]
proof fn lemma_sdec_fields_exact(p: ClientPacketV, extra: Seq<u8>)
    requires
        packet_wire_valid(p),
        (p matches ClientPacketV::ClientInfoList { branches: Option::None, .. } ==> extra.len()
            == 0),
    ensures
        ({
            let b = enc_packet(p) + extra;
            sdec_u8(b, 0) matches Ok(t) && t.1 == 1 && sdec_fields(b, t.0, 1) == Ok::<
                (ClientPacketV, int),
                Error,
            >((p, enc_packet(p).len() as int))
        }),
{
    let e = enc_packet(p);
    let b = e + extra;
    assert(b.subrange(0, e.len() as int) =~= e);
    match p {
        ClientPacketV::ClientInfoList { content_type, openttd_version, branches } => {
            let e0 = seq![0u8];
            let e1 = enc_u8(content_type_code(content_type));
            let e2 = enc_u32_le(openttd_version);
            match branches {
                Option::None => {
                    assert(e =~= e0 + (e1 + (e2 + Seq::<u8>::empty())));
                    lemma_split_subrange(b, 0, e0, e1 + (e2 + Seq::<u8>::empty()));
                    lemma_split_subrange(b, 1, e1, e2 + Seq::<u8>::empty());
                    lemma_split_subrange(b, 2, e2, Seq::<u8>::empty());
                    assert(b[0] == 0) by {
                        assert(b[0] == b.subrange(0, 1)[0]);
                    }
                    lemma_sdec_content_type_exact(b, 1, content_type);
                    lemma_sdec_u32_exact(b, 2, openttd_version);
                    assert(b.len() == 6);
                },
                Option::Some(bs) => {
                    let e3 = enc_u8(bs.len() as u8);
                    let e4 = enc_branch_list(bs);
                    assert(e =~= e0 + (e1 + (e2 + (e3 + e4))));
                    lemma_split_subrange(b, 0, e0, e1 + (e2 + (e3 + e4)));
                    lemma_split_subrange(b, 1, e1, e2 + (e3 + e4));
                    lemma_split_subrange(b, 2, e2, e3 + e4);
                    lemma_split_subrange(b, 6, e3, e4);
                    assert(b[0] == 0) by {
                        assert(b[0] == b.subrange(0, 1)[0]);
                    }
                    lemma_sdec_content_type_exact(b, 1, content_type);
                    lemma_sdec_u32_exact(b, 2, openttd_version);
                    assert(b.len() >= 7);
                    lemma_sdec_u8_exact(b, 6, bs.len() as u8);
                    lemma_sdec_branch_list_exact(b, 7, bs);
                    assert((bs.len() as u8) as nat == bs.len());
                    assert(e.len() == 7 + e4.len());
                },
            }
        },
        ClientPacketV::ClientInfoId { content_infos } => {
            let e0 = seq![1u8];
            let e1 = enc_u16_le(content_infos.len() as u16);
            let e2 = enc_id_list(content_infos);
            assert(e =~= e0 + (e1 + e2));
            lemma_split_subrange(b, 0, e0, e1 + e2);
            lemma_split_subrange(b, 1, e1, e2);
            assert(b[0] == 1) by {
                assert(b[0] == b.subrange(0, 1)[0]);
            }
            lemma_sdec_u16_exact(b, 1, content_infos.len() as u16);
            lemma_sdec_id_list_exact(b, 3, content_infos);
            assert((content_infos.len() as u16) as nat == content_infos.len());
            assert(e.len() == 3 + e2.len());
        },
        ClientPacketV::ClientInfoExtId { content_infos } => {
            let e0 = seq![2u8];
            let e1 = enc_u8(content_infos.len() as u8);
            let e2 = enc_ext_list(content_infos);
            assert(e =~= e0 + (e1 + e2));
            lemma_split_subrange(b, 0, e0, e1 + e2);
            lemma_split_subrange(b, 1, e1, e2);
            assert(b[0] == 2) by {
                assert(b[0] == b.subrange(0, 1)[0]);
            }
            lemma_sdec_u8_exact(b, 1, content_infos.len() as u8);
            lemma_sdec_ext_list_exact(b, 2, content_infos);
            assert((content_infos.len() as u8) as nat == content_infos.len());
            assert(e.len() == 2 + e2.len());
        },
        ClientPacketV::ClientInfoExtIdMd5 { content_infos } => {
            let e0 = seq![3u8];
            let e1 = enc_u8(content_infos.len() as u8);
            let e2 = enc_md5_list(content_infos);
            assert(e =~= e0 + (e1 + e2));
            lemma_split_subrange(b, 0, e0, e1 + e2);
            lemma_split_subrange(b, 1, e1, e2);
            assert(b[0] == 3) by {
                assert(b[0] == b.subrange(0, 1)[0]);
            }
            lemma_sdec_u8_exact(b, 1, content_infos.len() as u8);
            lemma_sdec_md5_list_exact(b, 2, content_infos);
            assert((content_infos.len() as u8) as nat == content_infos.len());
            assert(e.len() == 2 + e2.len());
        },
        ClientPacketV::ClientContent { content_infos } => {
            let e0 = seq![5u8];
            let e1 = enc_u16_le(content_infos.len() as u16);
            let e2 = enc_id_list(content_infos);
            assert(e =~= e0 + (e1 + e2));
            lemma_split_subrange(b, 0, e0, e1 + e2);
            lemma_split_subrange(b, 1, e1, e2);
            assert(b[0] == 5) by {
                assert(b[0] == b.subrange(0, 1)[0]);
            }
            lemma_sdec_u16_exact(b, 1, content_infos.len() as u16);
            lemma_sdec_id_list_exact(b, 3, content_infos);
            assert((content_infos.len() as u16) as nat == content_infos.len());
            assert(e.len() == 3 + e2.len());
        },
    }
}

/// Every strict truncation of an encoded packet fails as too short, and
/// in particular never decodes successfully.  The one excluded cut is a
/// `ClientInfoList` truncated exactly at its trailing-optional boundary
/// (offset 6): such a buffer is a complete branchless shape of its own and
/// is judged by validation instead.
#[verifier::rlimit(80)]
#[verifier::spinoff_prover]
pub proof fn lemma_truncated_packet_too_short(p: ClientPacketV, n: int)
    requires
        packet_wire_valid(p),
        0 <= n < enc_packet(p).len(),
        p matches ClientPacketV::ClientInfoList { .. } ==> n != 6,
    ensures
        sread_packet(enc_packet(p).subrange(0, n)) == Err::<ClientPacketV, Error>(
            Error::PacketTooShort,
        ),
{
    let e = enc_packet(p);
    let b = e.subrange(0, n);
    assert(b.subrange(0, b.len() as int) =~= b);
    if n == 0 {
        return ;
    }
    match p {
        ClientPacketV::ClientInfoList { content_type, openttd_version, branches } => {
            let e0 = seq![0u8];
            let e1 = enc_u8(content_type_code(content_type));
            let e2 = enc_u32_le(openttd_version);
            match branches {
                Option::None => {
                    assert(e =~= e0 + (e1 + (e2 + Seq::<u8>::empty())));
                    assert(b[0] == 0) by {
                        assert(b[0] == e[0]);
                        assert(e[0] == e0[0]);
                    }
                    if n >= 2 {
                        lemma_split_prefix(b, 0, e0, e1 + (e2 + Seq::<u8>::empty()));
                        lemma_split_prefix(b, 1, e1, e2 + Seq::<u8>::empty());
                        assert(b.subrange(1, 2) =~= e1) by {
                            assert(e1.subrange(0, 1) =~= e1);
                        }
                        lemma_sdec_content_type_exact(b, 1, content_type);
                    }
                },
                Option::Some(bs) => {
                    let e3 = enc_u8(bs.len() as u8);
                    let e4 = enc_branch_list(bs);
                    assert(e =~= e0 + (e1 + (e2 + (e3 + e4))));
                    assert(b[0] == 0) by {
                        assert(b[0] == e[0]);
                        assert(e[0] == e0[0]);
                    }
                    if n >= 2 {
                        lemma_split_prefix(b, 0, e0, e1 + (e2 + (e3 + e4)));
                        lemma_split_prefix(b, 1, e1, e2 + (e3 + e4));
                        if n == 2 {
                            assert(b.subrange(1, 2) =~= e1) by {
                                assert(e1.subrange(0, 1) =~= e1);
                            }
                        }
                        lemma_sdec_content_type_exact(b, 1, content_type);
                        if n > 6 {
                            lemma_split_prefix(b, 2, e2, e3 + e4);
                            lemma_sdec_u32_exact(b, 2, openttd_version);
                            lemma_split_prefix(b, 6, e3, e4);
                            if n == 7 {
                                assert(b.subrange(6, 7) =~= e3) by {
                                    assert(e3.subrange(0, 1) =~= e3);
                                }
                                assert(b.subrange(7, 7) =~= e4.subrange(0, 0));
                            }
                            lemma_sdec_u8_exact(b, 6, bs.len() as u8);
                            assert((bs.len() as u8) as nat == bs.len());
                            assert(e.len() == 7 + e4.len());
                            lemma_sdec_branch_list_short(b, 7, bs);
                        }
                    }
                },
            }
        },
        ClientPacketV::ClientInfoId { content_infos } => {
            let e0 = seq![1u8];
            let e1 = enc_u16_le(content_infos.len() as u16);
            let e2 = enc_id_list(content_infos);
            assert(e =~= e0 + (e1 + e2));
            assert(b[0] == 1) by {
                assert(b[0] == e[0]);
                assert(e[0] == e0[0]);
            }
            if n >= 3 {
                lemma_split_prefix(b, 0, e0, e1 + e2);
                lemma_split_prefix(b, 1, e1, e2);
                if n == 3 {
                    assert(b.subrange(1, 3) =~= e1) by {
                        assert(e1.subrange(0, 2) =~= e1);
                    }
                    assert(b.subrange(3, 3) =~= e2.subrange(0, 0));
                }
                lemma_sdec_u16_exact(b, 1, content_infos.len() as u16);
                assert((content_infos.len() as u16) as nat == content_infos.len());
                assert(e.len() == 3 + e2.len());
                lemma_sdec_id_list_short(b, 3, content_infos);
            }
        },
        ClientPacketV::ClientInfoExtId { content_infos } => {
            let e0 = seq![2u8];
            let e1 = enc_u8(content_infos.len() as u8);
            let e2 = enc_ext_list(content_infos);
            assert(e =~= e0 + (e1 + e2));
            assert(b[0] == 2) by {
                assert(b[0] == e[0]);
                assert(e[0] == e0[0]);
            }
            if n >= 2 {
                lemma_split_prefix(b, 0, e0, e1 + e2);
                lemma_split_prefix(b, 1, e1, e2);
                if n == 2 {
                    assert(b.subrange(1, 2) =~= e1) by {
                        assert(e1.subrange(0, 1) =~= e1);
                    }
                    assert(b.subrange(2, 2) =~= e2.subrange(0, 0));
                }
                lemma_sdec_u8_exact(b, 1, content_infos.len() as u8);
                assert((content_infos.len() as u8) as nat == content_infos.len());
                assert(e.len() == 2 + e2.len());
                lemma_sdec_ext_list_short(b, 2, content_infos);
            }
        },
        ClientPacketV::ClientInfoExtIdMd5 { content_infos } => {
            let e0 = seq![3u8];
            let e1 = enc_u8(content_infos.len() as u8);
            let e2 = enc_md5_list(content_infos);
            assert(e =~= e0 + (e1 + e2));
            assert(b[0] == 3) by {
                assert(b[0] == e[0]);
                assert(e[0] == e0[0]);
            }
            if n >= 2 {
                lemma_split_prefix(b, 0, e0, e1 + e2);
                lemma_split_prefix(b, 1, e1, e2);
                if n == 2 {
                    assert(b.subrange(1, 2) =~= e1) by {
                        assert(e1.subrange(0, 1) =~= e1);
                    }
                    assert(b.subrange(2, 2) =~= e2.subrange(0, 0));
                }
                lemma_sdec_u8_exact(b, 1, content_infos.len() as u8);
                assert((content_infos.len() as u8) as nat == content_infos.len());
                assert(e.len() == 2 + e2.len());
                lemma_sdec_md5_list_short(b, 2, content_infos);
            }
        },
        ClientPacketV::ClientContent { content_infos } => {
            let e0 = seq![5u8];
            let e1 = enc_u16_le(content_infos.len() as u16);
            let e2 = enc_id_list(content_infos);
            assert(e =~= e0 + (e1 + e2));
            assert(b[0] == 5) by {
                assert(b[0] == e[0]);
                assert(e[0] == e0[0]);
            }
            if n >= 3 {
                lemma_split_prefix(b, 0, e0, e1 + e2);
                lemma_split_prefix(b, 1, e1, e2);
                if n == 3 {
                    assert(b.subrange(1, 3) =~= e1) by {
                        assert(e1.subrange(0, 2) =~= e1);
                    }
                    assert(b.subrange(3, 3) =~= e2.subrange(0, 0));
                }
                lemma_sdec_u16_exact(b, 1, content_infos.len() as u16);
                assert((content_infos.len() as u16) as nat == content_infos.len());
                assert(e.len() == 3 + e2.len());
                lemma_sdec_id_list_short(b, 3, content_infos);
            }
        },
    }
}

/// The round trip: decoding the encoding of any schema-valid packet
/// returns exactly that packet.
pub proof fn lemma_decode_encode_round_trip(p: ClientPacketV)
    requires
        packet_valid(p),
    ensures
        sread_packet(enc_packet(p)) == Ok::<ClientPacketV, Error>(p),
{
    lemma_sdec_fields_exact(p, Seq::empty());
    assert(enc_packet(p) + Seq::<u8>::empty() =~= enc_packet(p));
}

/// Bytes trailing beyond what the schema consumes fail the whole decode
/// as too long.  A `ClientInfoList` without branches is excluded: extra
/// bytes after its fixed fields are read as a present trailing optional
/// instead of as trailing garbage.
pub proof fn lemma_trailing_bytes_too_long(p: ClientPacketV, extra: Seq<u8>)
    requires
        packet_wire_valid(p),
        extra.len() > 0,
        !(p matches ClientPacketV::ClientInfoList { branches: Option::None, .. }),
    ensures
        sread_packet(enc_packet(p) + extra) == Err::<ClientPacketV, Error>(Error::PacketTooLong),
{
    lemma_sdec_fields_exact(p, extra);
}

// ------------------------------------------------------------------
// The server-originated frame
// ------------------------------------------------------------------

proof fn lemma_sdec_dep_list_exact(b: Seq<u8>, pos: int, items: Seq<u32>)
    requires
        0 <= pos,
        pos + enc_dep_list(items).len() <= b.len(),
        b.subrange(pos, pos + enc_dep_list(items).len()) == enc_dep_list(items),
    ensures
        sdec_dep_list(b, pos, items.len()) == Ok::<(Seq<u32>, int), Error>(
            (items, pos + enc_dep_list(items).len()),
        ),
    decreases items.len(),
{
    if items.len() == 0 {
        assert(items =~= Seq::<u32>::empty());
    } else {
        let x = enc_u32_le(items[0]);
        let y = enc_dep_list(items.drop_first());
        lemma_split_subrange(b, pos, x, y);
        lemma_sdec_u32_exact(b, pos, items[0]);
        lemma_sdec_dep_list_exact(b, pos + 4, items.drop_first());
        assert(seq![items[0]] + items.drop_first() =~= items);
    }
}

proof fn lemma_sdec_tag_list_exact(b: Seq<u8>, pos: int, items: Seq<Seq<char>>)
    requires
        0 <= pos,
        forall|i: int| 0 <= i < items.len() ==> nul_free(#[trigger] items[i]),
        pos + enc_tag_list(items).len() <= b.len(),
        b.subrange(pos, pos + enc_tag_list(items).len()) == enc_tag_list(items),
    ensures
        sdec_tag_list(b, pos, items.len()) == Ok::<(Seq<Seq<char>>, int), Error>(
            (items, pos + enc_tag_list(items).len()),
        ),
    decreases items.len(),
{
    if items.len() == 0 {
        assert(items =~= Seq::<Seq<char>>::empty());
    } else {
        let x = enc_str(items[0]);
        let y = enc_tag_list(items.drop_first());
        lemma_split_subrange(b, pos, x, y);
        lemma_sdec_str_exact(b, pos, items[0]);
        lemma_sdec_tag_list_exact(b, pos + x.len(), items.drop_first());
        assert(seq![items[0]] + items.drop_first() =~= items);
    }
}

#[verifier::rlimit(100)]
#[verifier::spinoff_prover]
proof fn lemma_server_fields_exact(b: Seq<u8>, pos: int, v: ServerInfoV)
    requires
        0 <= pos,
        server_info_wire_valid(v),
        pos + enc_server_body(v).len() == b.len(),
        b.subrange(pos, pos + enc_server_body(v).len()) == enc_server_body(v),
    ensures
        sdec_server_fields(b, pos) == Ok::<ServerInfoV, Error>(v),
{
    let e2 = enc_u8(content_type_code(v.content_type));
    let e3 = enc_u32_le(v.content_id);
    let e4 = enc_u32_le(v.filesize);
    let e5 = enc_str(v.name);
    let e6 = enc_str(v.version);
    let e7 = enc_str(v.url);
    let e8 = enc_str(v.description);
    let e9 = enc_u32_le(v.unique_id);
    let e10 = v.md5;
    let e11 = enc_u8(v.dependencies.len() as u8);
    let e12 = enc_dep_list(v.dependencies);
    let e13 = enc_u8(v.tags.len() as u8);
    let e14 = enc_tag_list(v.tags);
    let r6 = e13 + e14;
    let r5 = e11 + (e12 + r6);
    let r4 = e9 + (e10 + r5);
    let r3 = e7 + (e8 + r4);
    let r2 = e5 + (e6 + r3);
    assert(enc_server_body(v) =~= e2 + (e3 + (e4 + r2)));
    lemma_split_subrange(b, pos, e2, e3 + (e4 + r2));
    lemma_sdec_content_type_exact(b, pos, v.content_type);
    lemma_split_subrange(b, pos + 1, e3, e4 + r2);
    lemma_sdec_u32_exact(b, pos + 1, v.content_id);
    lemma_split_subrange(b, pos + 5, e4, r2);
    lemma_sdec_u32_exact(b, pos + 5, v.filesize);
    let p4 = pos + 9;
    lemma_split_subrange(b, p4, e5, e6 + r3);
    lemma_sdec_str_exact(b, p4, v.name);
    let p5 = p4 + e5.len();
    lemma_split_subrange(b, p5, e6, r3);
    lemma_sdec_str_exact(b, p5, v.version);
    let p6 = p5 + e6.len();
    lemma_split_subrange(b, p6, e7, e8 + r4);
    lemma_sdec_str_exact(b, p6, v.url);
    let p7 = p6 + e7.len();
    lemma_split_subrange(b, p7, e8, r4);
    lemma_sdec_str_exact(b, p7, v.description);
    let p8 = p7 + e8.len();
    lemma_split_subrange(b, p8, e9, e10 + r5);
    lemma_sdec_u32_exact(b, p8, v.unique_id);
    let p9 = p8 + 4;
    lemma_split_subrange(b, p9, e10, r5);
    assert(sdec_md5_bytes(b, p9) == Ok::<(Seq<u8>, int), Error>((v.md5, p9 + 16))) by {
        assert(b.subrange(p9, p9 + 16) == v.md5);
    }
    let p10 = p9 + 16;
    lemma_split_subrange(b, p10, e11, e12 + r6);
    lemma_sdec_u8_exact(b, p10, v.dependencies.len() as u8);
    assert((v.dependencies.len() as u8) as nat == v.dependencies.len());
    let p11 = p10 + 1;
    lemma_split_subrange(b, p11, e12, r6);
    lemma_sdec_dep_list_exact(b, p11, v.dependencies);
    let p12 = p11 + e12.len();
    lemma_split_subrange(b, p12, e13, e14);
    lemma_sdec_u8_exact(b, p12, v.tags.len() as u8);
    assert((v.tags.len() as u8) as nat == v.tags.len());
    let p13 = p12 + 1;
    lemma_sdec_tag_list_exact(b, p13, v.tags);
    assert(p13 + e14.len() == b.len());
}

/// The round trip of the server-originated direction: the frame written
/// for any wire-valid `ServerInfo` reads back as exactly that value.
#[verifier::rlimit(60)]
#[verifier::spinoff_prover]
pub proof fn lemma_server_frame_round_trip(v: ServerInfoV)
    requires
        server_info_wire_valid(v),
    ensures
        sdec_server_info(enc_server_frame(v)) == Ok::<ServerInfoV, Error>(v),
{
    let body = enc_server_body(v);
    let total = server_frame_len(v) as u16;
    let b = enc_server_frame(v);
    let e0 = enc_u16_le(total);
    let e1 = seq![4u8];
    assert(b.len() == server_frame_len(v));
    assert(b =~= e0 + (e1 + body));
    assert(b.subrange(0, b.len() as int) =~= b);
    lemma_split_subrange(b, 0, e0, e1 + body);
    lemma_sdec_u16_exact(b, 0, total);
    lemma_split_subrange(b, 2, e1, body);
    assert(b[2] == 4) by {
        assert(b[2] == b.subrange(2, 3)[0]);
    }
    lemma_server_fields_exact(b, 3, v);
}

/// The cross-field rule is enforced on every structurally well-formed
/// `ClientInfoList`: whenever branch presence disagrees with the version
/// sentinel, decoding its encoding fails validation.
pub proof fn lemma_validation_rejects(p: ClientPacketV)
    requires
        packet_wire_valid(p),
        !packet_rule_ok(p),
    ensures
        sread_packet(enc_packet(p)) == Err::<ClientPacketV, Error>(Error::ValidationError),
{
    lemma_sdec_fields_exact(p, Seq::empty());
    assert(enc_packet(p) + Seq::<u8>::empty() =~= enc_packet(p));
}

} // verus!
