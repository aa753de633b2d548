//! The concrete packet catalogue of the content-distribution protocol.
//!
//! Client-originated packets are a tagged union: one leading tag byte selects
//! the variant, whose fields follow as wire-codec primitives, count-prefixed
//! sequences, and (for `ClientInfoList`) one trailing optional.  Decoding a
//! packet body consumes the tag, the variant's fields, and must leave zero
//! bytes behind; a cross-field validation rule then runs before the packet is
//! handed to dispatch.  The one server-originated packet, `ServerInfo`, is
//! encoded into a length-prefixed frame.
//!
//! `sdec_*` and `enc_*` functions are the specification of the byte format;
//! the executable functions are proved to agree with them exactly.

use vstd::prelude::*;
use vstd::utf8::*;

use crate::wire::{
    decode_string, decode_u16, decode_u32, decode_u8, enc_str, enc_u16_le, enc_u32_le, enc_u8,
    append_bytes, encode_str, encode_u16, encode_u32, encode_u8, sdec_str, sdec_u16, sdec_u32, sdec_u8, Error,
};

verus! {

// ------------------------------------------------------------------
// Packet data types
// ------------------------------------------------------------------

/// The kinds of content the protocol distributes, carried on the wire as
/// one byte holding the codes 1 through 10.
#[derive(Clone, Copy, Debug, PartialEq, Eq, Structural)]
pub enum ContentType {
    BaseGraphics,
    NewGRF,
    AI,
    AILibrary,
    Scenario,
    Heightmap,
    BaseSounds,
    BaseMusic,
    Game,
    GameLibrary,
}

#[derive(Debug, PartialEq, Eq)]
pub struct ClientInfoListBranch {
    pub branch: String,
    pub version: String,
}

#[derive(Debug, PartialEq, Eq)]
pub struct ClientInfoIdContentInfo {
    pub content_id: u32,
}

#[derive(Debug, PartialEq, Eq)]
pub struct ClientInfoExtIdContentInfo {
    pub content_type: ContentType,
    pub unique_id: u32,
}

#[derive(Debug, PartialEq, Eq)]
pub struct ClientInfoExtIdMd5ContentInfo {
    pub content_type: ContentType,
    pub unique_id: u32,
    /// Always exactly 16 bytes on the wire.
    pub md5: Vec<u8>,
}

/// The one server-originated packet: a content description, sent in reply
/// to a `ClientInfoList` request.
#[derive(Debug, PartialEq, Eq)]
pub struct ServerInfo {
    pub content_type: ContentType,
    pub content_id: u32,
    pub filesize: u32,
    pub name: String,
    pub version: String,
    pub url: String,
    pub description: String,
    pub unique_id: u32,
    /// Always exactly 16 bytes on the wire.
    pub md5: Vec<u8>,
    pub dependencies: Vec<u32>,
    pub tags: Vec<String>,
}

/// The tagged union of client-originated packets.  Tags 4 and 6 belong to
/// server-originated packets and are never accepted from a client.
#[derive(Debug, PartialEq, Eq)]
pub enum ClientPacket {
    ClientInfoList {
        content_type: ContentType,
        openttd_version: u32,
        branches: Option<Vec<ClientInfoListBranch>>,
    },
    ClientInfoId { content_infos: Vec<ClientInfoIdContentInfo> },
    ClientInfoExtId { content_infos: Vec<ClientInfoExtIdContentInfo> },
    ClientInfoExtIdMd5 { content_infos: Vec<ClientInfoExtIdMd5ContentInfo> },
    ClientContent { content_infos: Vec<ClientInfoIdContentInfo> },
}

// ------------------------------------------------------------------
// Mathematical views of the packet types
// ------------------------------------------------------------------

pub struct BranchV {
    pub branch: Seq<char>,
    pub version: Seq<char>,
}

pub struct IdInfoV {
    pub content_id: u32,
}

pub struct ExtIdInfoV {
    pub content_type: ContentType,
    pub unique_id: u32,
}

pub struct ExtIdMd5InfoV {
    pub content_type: ContentType,
    pub unique_id: u32,
    pub md5: Seq<u8>,
}

pub struct ServerInfoV {
    pub content_type: ContentType,
    pub content_id: u32,
    pub filesize: u32,
    pub name: Seq<char>,
    pub version: Seq<char>,
    pub url: Seq<char>,
    pub description: Seq<char>,
    pub unique_id: u32,
    pub md5: Seq<u8>,
    pub dependencies: Seq<u32>,
    pub tags: Seq<Seq<char>>,
}

pub enum ClientPacketV {
    ClientInfoList {
        content_type: ContentType,
        openttd_version: u32,
        branches: Option<Seq<BranchV>>,
    },
    ClientInfoId { content_infos: Seq<IdInfoV> },
    ClientInfoExtId { content_infos: Seq<ExtIdInfoV> },
    ClientInfoExtIdMd5 { content_infos: Seq<ExtIdMd5InfoV> },
    ClientContent { content_infos: Seq<IdInfoV> },
}

impl DeepView for ClientInfoListBranch {
    type V = BranchV;

    open spec fn deep_view(&self) -> BranchV {
        BranchV { branch: self.branch@, version: self.version@ }
    }
}

impl DeepView for ClientInfoIdContentInfo {
    type V = IdInfoV;

    open spec fn deep_view(&self) -> IdInfoV {
        IdInfoV { content_id: self.content_id }
    }
}

impl DeepView for ClientInfoExtIdContentInfo {
    type V = ExtIdInfoV;

    open spec fn deep_view(&self) -> ExtIdInfoV {
        ExtIdInfoV { content_type: self.content_type, unique_id: self.unique_id }
    }
}

impl DeepView for ClientInfoExtIdMd5ContentInfo {
    type V = ExtIdMd5InfoV;

    open spec fn deep_view(&self) -> ExtIdMd5InfoV {
        ExtIdMd5InfoV {
            content_type: self.content_type,
            unique_id: self.unique_id,
            md5: self.md5@,
        }
    }
}

impl DeepView for ServerInfo {
    type V = ServerInfoV;

    open spec fn deep_view(&self) -> ServerInfoV {
        ServerInfoV {
            content_type: self.content_type,
            content_id: self.content_id,
            filesize: self.filesize,
            name: self.name@,
            version: self.version@,
            url: self.url@,
            description: self.description@,
            unique_id: self.unique_id,
            md5: self.md5@,
            dependencies: self.dependencies@,
            tags: self.tags.deep_view(),
        }
    }
}

impl DeepView for ClientPacket {
    type V = ClientPacketV;

    open spec fn deep_view(&self) -> ClientPacketV {
        match self {
            ClientPacket::ClientInfoList { content_type, openttd_version, branches } => (
            ClientPacketV::ClientInfoList {
                content_type: *content_type,
                openttd_version: *openttd_version,
                branches: branches.deep_view(),
            }),
            ClientPacket::ClientInfoId { content_infos } => (ClientPacketV::ClientInfoId {
                content_infos: content_infos.deep_view(),
            }),
            ClientPacket::ClientInfoExtId { content_infos } => (ClientPacketV::ClientInfoExtId {
                content_infos: content_infos.deep_view(),
            }),
            ClientPacket::ClientInfoExtIdMd5 { content_infos } => (
            ClientPacketV::ClientInfoExtIdMd5 { content_infos: content_infos.deep_view() }),
            ClientPacket::ClientContent { content_infos } => (ClientPacketV::ClientContent {
                content_infos: content_infos.deep_view(),
            }),
        }
    }
}

// ------------------------------------------------------------------
// The content-type code table
// ------------------------------------------------------------------

pub open spec fn content_type_code(ct: ContentType) -> u8 {
    match ct {
        ContentType::BaseGraphics => 1,
        ContentType::NewGRF => 2,
        ContentType::AI => 3,
        ContentType::AILibrary => 4,
        ContentType::Scenario => 5,
        ContentType::Heightmap => 6,
        ContentType::BaseSounds => 7,
        ContentType::BaseMusic => 8,
        ContentType::Game => 9,
        ContentType::GameLibrary => 10,
    }
}

pub open spec fn content_type_of(v: u8) -> ContentType {
    if v == 1 {
        ContentType::BaseGraphics
    } else if v == 2 {
        ContentType::NewGRF
    } else if v == 3 {
        ContentType::AI
    } else if v == 4 {
        ContentType::AILibrary
    } else if v == 5 {
        ContentType::Scenario
    } else if v == 6 {
        ContentType::Heightmap
    } else if v == 7 {
        ContentType::BaseSounds
    } else if v == 8 {
        ContentType::BaseMusic
    } else if v == 9 {
        ContentType::Game
    } else {
        ContentType::GameLibrary
    }
}

impl ContentType {
    /// The one-byte wire code of this content type.
    pub fn code(&self) -> (r: u8)
        ensures
            r == content_type_code(*self),
    {
        match self {
            ContentType::BaseGraphics => 1,
            ContentType::NewGRF => 2,
            ContentType::AI => 3,
            ContentType::AILibrary => 4,
            ContentType::Scenario => 5,
            ContentType::Heightmap => 6,
            ContentType::BaseSounds => 7,
            ContentType::BaseMusic => 8,
            ContentType::Game => 9,
            ContentType::GameLibrary => 10,
        }
    }

    /// Maps a wire code back to a content type; every code outside 1..=10
    /// is out of range.
    pub fn from_code(v: u8) -> (r: Result<ContentType, Error>)
        ensures
            r is Ok <==> 1 <= v <= 10,
            r matches Ok(ct) ==> ct == content_type_of(v) && content_type_code(ct) == v,
            r is Err ==> r == Err::<ContentType, Error>(Error::ValueOutOfRange),
    {
        match v {
            1 => Ok(ContentType::BaseGraphics),
            2 => Ok(ContentType::NewGRF),
            3 => Ok(ContentType::AI),
            4 => Ok(ContentType::AILibrary),
            5 => Ok(ContentType::Scenario),
            6 => Ok(ContentType::Heightmap),
            7 => Ok(ContentType::BaseSounds),
            8 => Ok(ContentType::BaseMusic),
            9 => Ok(ContentType::Game),
            10 => Ok(ContentType::GameLibrary),
            _ => Err(Error::ValueOutOfRange),
        }
    }
}

// ------------------------------------------------------------------
// Specification-level encoding of packets
// ------------------------------------------------------------------

pub open spec fn enc_branch(b: BranchV) -> Seq<u8> {
    enc_str(b.branch) + enc_str(b.version)
}

pub open spec fn enc_branch_list(s: Seq<BranchV>) -> Seq<u8>
    decreases s.len(),
{
    if s.len() == 0 {
        Seq::empty()
    } else {
        enc_branch(s[0]) + enc_branch_list(s.drop_first())
    }
}

pub open spec fn enc_id_info(v: IdInfoV) -> Seq<u8> {
    enc_u32_le(v.content_id)
}

pub open spec fn enc_id_list(s: Seq<IdInfoV>) -> Seq<u8>
    decreases s.len(),
{
    if s.len() == 0 {
        Seq::empty()
    } else {
        enc_id_info(s[0]) + enc_id_list(s.drop_first())
    }
}

pub open spec fn enc_ext_info(v: ExtIdInfoV) -> Seq<u8> {
    enc_u8(content_type_code(v.content_type)) + enc_u32_le(v.unique_id)
}

pub open spec fn enc_ext_list(s: Seq<ExtIdInfoV>) -> Seq<u8>
    decreases s.len(),
{
    if s.len() == 0 {
        Seq::empty()
    } else {
        enc_ext_info(s[0]) + enc_ext_list(s.drop_first())
    }
}

pub open spec fn enc_md5_info(v: ExtIdMd5InfoV) -> Seq<u8> {
    enc_u8(content_type_code(v.content_type)) + enc_u32_le(v.unique_id) + v.md5
}

pub open spec fn enc_md5_list(s: Seq<ExtIdMd5InfoV>) -> Seq<u8>
    decreases s.len(),
{
    if s.len() == 0 {
        Seq::empty()
    } else {
        enc_md5_info(s[0]) + enc_md5_list(s.drop_first())
    }
}

/// The body bytes of a client packet: tag byte, then the variant's fields.
/// A count-prefixed sequence contributes its declared-length field followed
/// by exactly that many elements; the trailing optional of `ClientInfoList`
/// contributes nothing when absent.
pub open spec fn enc_packet(p: ClientPacketV) -> Seq<u8> {
    match p {
        ClientPacketV::ClientInfoList { content_type, openttd_version, branches } => (seq![0u8]
            + enc_u8(content_type_code(content_type)) + enc_u32_le(openttd_version) + (
        match branches {
            Option::None => Seq::<u8>::empty(),
            Option::Some(bs) => enc_u8(bs.len() as u8) + enc_branch_list(bs),
        })),
        ClientPacketV::ClientInfoId { content_infos } => (seq![1u8] + enc_u16_le(
            content_infos.len() as u16,
        ) + enc_id_list(content_infos)),
        ClientPacketV::ClientInfoExtId { content_infos } => (seq![2u8] + enc_u8(
            content_infos.len() as u8,
        ) + enc_ext_list(content_infos)),
        ClientPacketV::ClientInfoExtIdMd5 { content_infos } => (seq![3u8] + enc_u8(
            content_infos.len() as u8,
        ) + enc_md5_list(content_infos)),
        ClientPacketV::ClientContent { content_infos } => (seq![5u8] + enc_u16_le(
            content_infos.len() as u16,
        ) + enc_id_list(content_infos)),
    }
}

// ------------------------------------------------------------------
// Specification-level decoding of packets
// ------------------------------------------------------------------

pub open spec fn sdec_content_type(b: Seq<u8>, pos: int) -> Result<(ContentType, int), Error> {
    match sdec_u8(b, pos) {
        Err(e) => Err(e),
        Ok((v, p)) => if 1 <= v <= 10 {
            Ok((content_type_of(v), p))
        } else {
            Err(Error::ValueOutOfRange)
        },
    }
}

pub open spec fn sdec_branch(b: Seq<u8>, pos: int) -> Result<(BranchV, int), Error> {
    match sdec_str(b, pos) {
        Err(e) => Err(e),
        Ok((branch, p1)) => match sdec_str(b, p1) {
            Err(e) => Err(e),
            Ok((version, p2)) => Ok((BranchV { branch, version }, p2)),
        },
    }
}

pub open spec fn sdec_branch_list(b: Seq<u8>, pos: int, n: nat) -> Result<
    (Seq<BranchV>, int),
    Error,
>
    decreases n,
{
    if n == 0 {
        Ok((Seq::empty(), pos))
    } else {
        match sdec_branch(b, pos) {
            Err(e) => Err(e),
            Ok((v, p)) => match sdec_branch_list(b, p, (n - 1) as nat) {
                Err(e) => Err(e),
                Ok((s, q)) => Ok((seq![v] + s, q)),
            },
        }
    }
}

pub open spec fn sdec_id_info(b: Seq<u8>, pos: int) -> Result<(IdInfoV, int), Error> {
    match sdec_u32(b, pos) {
        Err(e) => Err(e),
        Ok((content_id, p)) => Ok((IdInfoV { content_id }, p)),
    }
}

pub open spec fn sdec_id_list(b: Seq<u8>, pos: int, n: nat) -> Result<(Seq<IdInfoV>, int), Error>
    decreases n,
{
    if n == 0 {
        Ok((Seq::empty(), pos))
    } else {
        match sdec_id_info(b, pos) {
            Err(e) => Err(e),
            Ok((v, p)) => match sdec_id_list(b, p, (n - 1) as nat) {
                Err(e) => Err(e),
                Ok((s, q)) => Ok((seq![v] + s, q)),
            },
        }
    }
}

pub open spec fn sdec_ext_info(b: Seq<u8>, pos: int) -> Result<(ExtIdInfoV, int), Error> {
    match sdec_content_type(b, pos) {
        Err(e) => Err(e),
        Ok((content_type, p1)) => match sdec_u32(b, p1) {
            Err(e) => Err(e),
            Ok((unique_id, p2)) => Ok((ExtIdInfoV { content_type, unique_id }, p2)),
        },
    }
}

pub open spec fn sdec_ext_list(b: Seq<u8>, pos: int, n: nat) -> Result<
    (Seq<ExtIdInfoV>, int),
    Error,
>
    decreases n,
{
    if n == 0 {
        Ok((Seq::empty(), pos))
    } else {
        match sdec_ext_info(b, pos) {
            Err(e) => Err(e),
            Ok((v, p)) => match sdec_ext_list(b, p, (n - 1) as nat) {
                Err(e) => Err(e),
                Ok((s, q)) => Ok((seq![v] + s, q)),
            },
        }
    }
}

pub open spec fn sdec_md5_bytes(b: Seq<u8>, pos: int) -> Result<(Seq<u8>, int), Error> {
    if 0 <= pos && pos + 16 <= b.len() {
        Ok((b.subrange(pos, pos + 16), pos + 16))
    } else {
        Err(Error::PacketTooShort)
    }
}

pub open spec fn sdec_md5_info(b: Seq<u8>, pos: int) -> Result<(ExtIdMd5InfoV, int), Error> {
    match sdec_content_type(b, pos) {
        Err(e) => Err(e),
        Ok((content_type, p1)) => match sdec_u32(b, p1) {
            Err(e) => Err(e),
            Ok((unique_id, p2)) => match sdec_md5_bytes(b, p2) {
                Err(e) => Err(e),
                Ok((md5, p3)) => Ok((ExtIdMd5InfoV { content_type, unique_id, md5 }, p3)),
            },
        },
    }
}

pub open spec fn sdec_md5_list(b: Seq<u8>, pos: int, n: nat) -> Result<
    (Seq<ExtIdMd5InfoV>, int),
    Error,
>
    decreases n,
{
    if n == 0 {
        Ok((Seq::empty(), pos))
    } else {
        match sdec_md5_info(b, pos) {
            Err(e) => Err(e),
            Ok((v, p)) => match sdec_md5_list(b, p, (n - 1) as nat) {
                Err(e) => Err(e),
                Ok((s, q)) => Ok((seq![v] + s, q)),
            },
        }
    }
}

/// Fields of the variant selected by `tag`, starting at `pos`.  Tags 4 and 6
/// are reserved for server-originated packets, so they and every other
/// unmapped tag are not supported as client packets.
pub open spec fn sdec_fields(b: Seq<u8>, tag: u8, pos: int) -> Result<
    (ClientPacketV, int),
    Error,
> {
    if tag == 0 {
        match sdec_content_type(b, pos) {
            Err(e) => Err(e),
            Ok((content_type, p1)) => match sdec_u32(b, p1) {
                Err(e) => Err(e),
                Ok((openttd_version, p2)) => if p2 == b.len() {
                    Ok(
                        (
                            ClientPacketV::ClientInfoList {
                                content_type,
                                openttd_version,
                                branches: Option::None,
                            },
                            p2,
                        ),
                    )
                } else {
                    match sdec_u8(b, p2) {
                        Err(e) => Err(e),
                        Ok((count, p3)) => match sdec_branch_list(b, p3, count as nat) {
                            Err(e) => Err(e),
                            Ok((bs, p4)) => Ok(
                                (
                                    ClientPacketV::ClientInfoList {
                                        content_type,
                                        openttd_version,
                                        branches: Option::Some(bs),
                                    },
                                    p4,
                                ),
                            ),
                        },
                    }
                },
            },
        }
    } else if tag == 1 {
        match sdec_u16(b, pos) {
            Err(e) => Err(e),
            Ok((count, p1)) => match sdec_id_list(b, p1, count as nat) {
                Err(e) => Err(e),
                Ok((s, p2)) => Ok((ClientPacketV::ClientInfoId { content_infos: s }, p2)),
            },
        }
    } else if tag == 2 {
        match sdec_u8(b, pos) {
            Err(e) => Err(e),
            Ok((count, p1)) => match sdec_ext_list(b, p1, count as nat) {
                Err(e) => Err(e),
                Ok((s, p2)) => Ok((ClientPacketV::ClientInfoExtId { content_infos: s }, p2)),
            },
        }
    } else if tag == 3 {
        match sdec_u8(b, pos) {
            Err(e) => Err(e),
            Ok((count, p1)) => match sdec_md5_list(b, p1, count as nat) {
                Err(e) => Err(e),
                Ok((s, p2)) => Ok((ClientPacketV::ClientInfoExtIdMd5 { content_infos: s }, p2)),
            },
        }
    } else if tag == 5 {
        match sdec_u16(b, pos) {
            Err(e) => Err(e),
            Ok((count, p1)) => match sdec_id_list(b, p1, count as nat) {
                Err(e) => Err(e),
                Ok((s, p2)) => Ok((ClientPacketV::ClientContent { content_infos: s }, p2)),
            },
        }
    } else {
        Err(Error::NotSupported)
    }
}

/// Structural decode of a whole packet body: tag, fields, and the demand
/// that the fields consume the buffer exactly.
pub open spec fn sfrom_bytes(b: Seq<u8>) -> Result<ClientPacketV, Error> {
    match sdec_u8(b, 0) {
        Err(e) => Err(e),
        Ok((tag, pos)) => match sdec_fields(b, tag, pos) {
            Err(e) => Err(e),
            Ok((p, q)) => if q == b.len() {
                Ok(p)
            } else {
                Err(Error::PacketTooLong)
            },
        },
    }
}

/// True when no character of `s` is the nul character, so that the string
/// survives nul-terminated framing.
pub open spec fn nul_free(s: Seq<char>) -> bool {
    forall|i: int| 0 <= i < s.len() ==> (s[i] as u32) != 0
}

pub open spec fn branch_wf(b: BranchV) -> bool {
    nul_free(b.branch) && nul_free(b.version)
}

/// Structural well-formedness of a packet: every count fits its declared
/// length field, every digest is exactly 16 bytes, and every string is free
/// of nul characters.
pub open spec fn packet_wire_valid(p: ClientPacketV) -> bool {
    match p {
        ClientPacketV::ClientInfoList { branches, .. } => (match branches {
            Option::None => true,
            Option::Some(bs) => bs.len() <= 255 && forall|i: int|
                0 <= i < bs.len() ==> branch_wf(#[trigger] bs[i]),
        }),
        ClientPacketV::ClientInfoId { content_infos } => content_infos.len() <= 65535,
        ClientPacketV::ClientInfoExtId { content_infos } => content_infos.len() <= 255,
        ClientPacketV::ClientInfoExtIdMd5 { content_infos } => content_infos.len() <= 255
            && forall|i: int|
            0 <= i < content_infos.len() ==> (#[trigger] content_infos[i]).md5.len() == 16,
        ClientPacketV::ClientContent { content_infos } => content_infos.len() <= 65535,
    }
}

/// A schema-valid packet: structurally well formed and obeying the
/// cross-field rule.
pub open spec fn packet_valid(p: ClientPacketV) -> bool {
    packet_wire_valid(p) && packet_rule_ok(p)
}

/// The cross-field rule of `ClientInfoList`: branches are present exactly
/// when the version field holds the sentinel 0xFFFFFFFF.
pub open spec fn packet_rule_ok(p: ClientPacketV) -> bool {
    p matches ClientPacketV::ClientInfoList { openttd_version, branches, .. } ==> (
    branches is Some <==> openttd_version == 0xFFFFFFFF)
}

/// Full decode: structural decode followed by cross-field validation.
pub open spec fn sread_packet(b: Seq<u8>) -> Result<ClientPacketV, Error> {
    match sfrom_bytes(b) {
        Err(e) => Err(e),
        Ok(p) => if packet_rule_ok(p) {
            Ok(p)
        } else {
            Err(Error::ValidationError)
        },
    }
}

// ------------------------------------------------------------------
// Executable decoders
// ------------------------------------------------------------------

fn decode_content_type(buf: &[u8], pos: usize) -> (r: Result<(ContentType, usize), Error>)
    requires
        pos <= buf@.len(),
    ensures
        (match r {
            Ok(v) => sdec_content_type(buf@, pos as int) == Ok::<(ContentType, int), Error>(
                (v.0, v.1 as int),
            ) && pos <= v.1 <= buf@.len(),
            Err(e) => sdec_content_type(buf@, pos as int) == Err::<(ContentType, int), Error>(e),
        }),
{
    match decode_u8(buf, pos) {
        Err(e) => Err(e),
        Ok((v, p)) => match ContentType::from_code(v) {
            Err(e) => Err(e),
            Ok(ct) => Ok((ct, p)),
        },
    }
}

fn decode_branch(buf: &[u8], pos: usize) -> (r: Result<(ClientInfoListBranch, usize), Error>)
    requires
        pos <= buf@.len(),
    ensures
        (match r {
            Ok(v) => sdec_branch(buf@, pos as int) matches Ok(s) && s.0 == v.0.deep_view()
                && s.1 == v.1 as int && pos <= v.1 <= buf@.len(),
            Err(e) => sdec_branch(buf@, pos as int) == Err::<(BranchV, int), Error>(e),
        }),
{
    match decode_string(buf, pos) {
        Err(e) => Err(e),
        Ok((branch, p1)) => match decode_string(buf, p1) {
            Err(e) => Err(e),
            Ok((version, p2)) => Ok((ClientInfoListBranch { branch, version }, p2)),
        },
    }
}

fn decode_branch_seq(buf: &[u8], pos: usize, count: u8) -> (r: Result<
    (Vec<ClientInfoListBranch>, usize),
    Error,
>)
    requires
        pos <= buf@.len(),
    ensures
        (match r {
            Ok(v) => sdec_branch_list(buf@, pos as int, count as nat) matches Ok(s)
                && s.0 == v.0.deep_view() && s.1 == v.1 as int && pos <= v.1 <= buf@.len(),
            Err(e) => sdec_branch_list(buf@, pos as int, count as nat) == Err::<
                (Seq<BranchV>, int),
                Error,
            >(e),
        }),
{
    let mut items: Vec<ClientInfoListBranch> = Vec::new();
    let mut p = pos;
    let mut i: u8 = 0;
    while i < count
        invariant
            i <= count,
            pos <= p <= buf@.len(),
            items.deep_view().len() == i as nat,
            sdec_branch_list(buf@, pos as int, count as nat) == (match sdec_branch_list(
                buf@,
                p as int,
                (count - i) as nat,
            ) {
                Ok(s) => Ok::<(Seq<BranchV>, int), Error>((items.deep_view() + s.0, s.1)),
                Err(e) => Err::<(Seq<BranchV>, int), Error>(e),
            }),
        decreases count - i,
    {
        match decode_branch(buf, p) {
            Err(e) => {
                return Err(e);
            },
            Ok((v, q)) => {
                let ghost old_items = items.deep_view();
                items.push(v);
                proof {
                    assert(items.deep_view() =~= old_items + seq![v.deep_view()]);
                    assert(forall|s: Seq<BranchV>|
                        (old_items + seq![v.deep_view()]) + s =~= old_items + (seq![
                            v.deep_view(),
                        ] + s));
                }
                p = q;
                i = i + 1;
            },
        }
    }
    assert(items.deep_view() + Seq::<BranchV>::empty() =~= items.deep_view());
    Ok((items, p))
}

fn decode_id_seq(buf: &[u8], pos: usize, count: u16) -> (r: Result<
    (Vec<ClientInfoIdContentInfo>, usize),
    Error,
>)
    requires
        pos <= buf@.len(),
    ensures
        (match r {
            Ok(v) => sdec_id_list(buf@, pos as int, count as nat) matches Ok(s)
                && s.0 == v.0.deep_view() && s.1 == v.1 as int && pos <= v.1 <= buf@.len(),
            Err(e) => sdec_id_list(buf@, pos as int, count as nat) == Err::<
                (Seq<IdInfoV>, int),
                Error,
            >(e),
        }),
{
    let mut items: Vec<ClientInfoIdContentInfo> = Vec::new();
    let mut p = pos;
    let mut i: u16 = 0;
    while i < count
        invariant
            i <= count,
            pos <= p <= buf@.len(),
            items.deep_view().len() == i as nat,
            sdec_id_list(buf@, pos as int, count as nat) == (match sdec_id_list(
                buf@,
                p as int,
                (count - i) as nat,
            ) {
                Ok(s) => Ok::<(Seq<IdInfoV>, int), Error>((items.deep_view() + s.0, s.1)),
                Err(e) => Err::<(Seq<IdInfoV>, int), Error>(e),
            }),
        decreases count - i,
    {
        match decode_u32(buf, p) {
            Err(e) => {
                return Err(e);
            },
            Ok((content_id, q)) => {
                let v = ClientInfoIdContentInfo { content_id };
                let ghost old_items = items.deep_view();
                items.push(v);
                proof {
                    assert(items.deep_view() =~= old_items + seq![v.deep_view()]);
                    assert(forall|s: Seq<IdInfoV>|
                        (old_items + seq![v.deep_view()]) + s =~= old_items + (seq![
                            v.deep_view(),
                        ] + s));
                }
                p = q;
                i = i + 1;
            },
        }
    }
    assert(items.deep_view() + Seq::<IdInfoV>::empty() =~= items.deep_view());
    Ok((items, p))
}

fn decode_ext_seq(buf: &[u8], pos: usize, count: u8) -> (r: Result<
    (Vec<ClientInfoExtIdContentInfo>, usize),
    Error,
>)
    requires
        pos <= buf@.len(),
    ensures
        (match r {
            Ok(v) => sdec_ext_list(buf@, pos as int, count as nat) matches Ok(s)
                && s.0 == v.0.deep_view() && s.1 == v.1 as int && pos <= v.1 <= buf@.len(),
            Err(e) => sdec_ext_list(buf@, pos as int, count as nat) == Err::<
                (Seq<ExtIdInfoV>, int),
                Error,
            >(e),
        }),
{
    let mut items: Vec<ClientInfoExtIdContentInfo> = Vec::new();
    let mut p = pos;
    let mut i: u8 = 0;
    while i < count
        invariant
            i <= count,
            pos <= p <= buf@.len(),
            items.deep_view().len() == i as nat,
            sdec_ext_list(buf@, pos as int, count as nat) == (match sdec_ext_list(
                buf@,
                p as int,
                (count - i) as nat,
            ) {
                Ok(s) => Ok::<(Seq<ExtIdInfoV>, int), Error>((items.deep_view() + s.0, s.1)),
                Err(e) => Err::<(Seq<ExtIdInfoV>, int), Error>(e),
            }),
        decreases count - i,
    {
        match decode_content_type(buf, p) {
            Err(e) => {
                return Err(e);
            },
            Ok((content_type, p1)) => match decode_u32(buf, p1) {
                Err(e) => {
                    return Err(e);
                },
                Ok((unique_id, q)) => {
                    let v = ClientInfoExtIdContentInfo { content_type, unique_id };
                    let ghost old_items = items.deep_view();
                    items.push(v);
                    proof {
                        assert(items.deep_view() =~= old_items + seq![v.deep_view()]);
                        assert(forall|s: Seq<ExtIdInfoV>|
                            (old_items + seq![v.deep_view()]) + s =~= old_items + (seq![
                                v.deep_view(),
                            ] + s));
                    }
                    p = q;
                    i = i + 1;
                },
            },
        }
    }
    assert(items.deep_view() + Seq::<ExtIdInfoV>::empty() =~= items.deep_view());
    Ok((items, p))
}

fn decode_md5_bytes(buf: &[u8], pos: usize) -> (r: Result<(Vec<u8>, usize), Error>)
    requires
        pos <= buf@.len(),
    ensures
        (match r {
            Ok(v) => sdec_md5_bytes(buf@, pos as int) matches Ok(s) && s.0 == v.0@
                && s.1 == v.1 as int && pos <= v.1 <= buf@.len(),
            Err(e) => sdec_md5_bytes(buf@, pos as int) == Err::<(Seq<u8>, int), Error>(e),
        }),
{
    if buf.len() - pos >= 16 {
        let content = vstd::slice::slice_subrange(buf, pos, pos + 16);
        let owned = vstd::slice::slice_to_vec(content);
        Ok((owned, pos + 16))
    } else {
        Err(Error::PacketTooShort)
    }
}

fn decode_md5_seq(buf: &[u8], pos: usize, count: u8) -> (r: Result<
    (Vec<ClientInfoExtIdMd5ContentInfo>, usize),
    Error,
>)
    requires
        pos <= buf@.len(),
    ensures
        (match r {
            Ok(v) => sdec_md5_list(buf@, pos as int, count as nat) matches Ok(s)
                && s.0 == v.0.deep_view() && s.1 == v.1 as int && pos <= v.1 <= buf@.len(),
            Err(e) => sdec_md5_list(buf@, pos as int, count as nat) == Err::<
                (Seq<ExtIdMd5InfoV>, int),
                Error,
            >(e),
        }),
{
    let mut items: Vec<ClientInfoExtIdMd5ContentInfo> = Vec::new();
    let mut p = pos;
    let mut i: u8 = 0;
    while i < count
        invariant
            i <= count,
            pos <= p <= buf@.len(),
            items.deep_view().len() == i as nat,
            sdec_md5_list(buf@, pos as int, count as nat) == (match sdec_md5_list(
                buf@,
                p as int,
                (count - i) as nat,
            ) {
                Ok(s) => Ok::<(Seq<ExtIdMd5InfoV>, int), Error>((items.deep_view() + s.0, s.1)),
                Err(e) => Err::<(Seq<ExtIdMd5InfoV>, int), Error>(e),
            }),
        decreases count - i,
    {
        match decode_content_type(buf, p) {
            Err(e) => {
                return Err(e);
            },
            Ok((content_type, p1)) => match decode_u32(buf, p1) {
                Err(e) => {
                    return Err(e);
                },
                Ok((unique_id, p2)) => match decode_md5_bytes(buf, p2) {
                    Err(e) => {
                        return Err(e);
                    },
                    Ok((md5, q)) => {
                        let v = ClientInfoExtIdMd5ContentInfo { content_type, unique_id, md5 };
                        let ghost old_items = items.deep_view();
                        items.push(v);
                        proof {
                            assert(items.deep_view() =~= old_items + seq![v.deep_view()]);
                            assert(forall|s: Seq<ExtIdMd5InfoV>|
                                (old_items + seq![v.deep_view()]) + s =~= old_items + (seq![
                                    v.deep_view(),
                                ] + s));
                        }
                        p = q;
                        i = i + 1;
                    },
                },
            },
        }
    }
    assert(items.deep_view() + Seq::<ExtIdMd5InfoV>::empty() =~= items.deep_view());
    Ok((items, p))
}

/// Structural decode of one packet body.  The tag selects the variant, the
/// variant's fields follow, and any bytes left over after the fields make
/// the packet too long.  No cross-field validation happens here.
pub fn from_bytes(buf: &[u8]) -> (r: Result<ClientPacket, Error>)
    ensures
        (match r {
            Ok(p) => sfrom_bytes(buf@) matches Ok(pv) && pv == p.deep_view(),
            Err(e) => sfrom_bytes(buf@) == Err::<ClientPacketV, Error>(e),
        }),
{
    let n = buf.len();
    let (tag, pos) = match decode_u8(buf, 0) {
        Err(e) => {
            return Err(e);
        },
        Ok(v) => v,
    };
    let (packet, end) = if tag == 0 {
        let (content_type, p1) = match decode_content_type(buf, pos) {
            Err(e) => {
                return Err(e);
            },
            Ok(v) => v,
        };
        let (openttd_version, p2) = match decode_u32(buf, p1) {
            Err(e) => {
                return Err(e);
            },
            Ok(v) => v,
        };
        if p2 == n {
            (
                ClientPacket::ClientInfoList {
                    content_type,
                    openttd_version,
                    branches: Option::None,
                },
                p2,
            )
        } else {
            let (count, p3) = match decode_u8(buf, p2) {
                Err(e) => {
                    return Err(e);
                },
                Ok(v) => v,
            };
            let (bs, p4) = match decode_branch_seq(buf, p3, count) {
                Err(e) => {
                    return Err(e);
                },
                Ok(v) => v,
            };
            (
                ClientPacket::ClientInfoList {
                    content_type,
                    openttd_version,
                    branches: Option::Some(bs),
                },
                p4,
            )
        }
    } else if tag == 1 {
        let (count, p1) = match decode_u16(buf, pos) {
            Err(e) => {
                return Err(e);
            },
            Ok(v) => v,
        };
        let (s, p2) = match decode_id_seq(buf, p1, count) {
            Err(e) => {
                return Err(e);
            },
            Ok(v) => v,
        };
        (ClientPacket::ClientInfoId { content_infos: s }, p2)
    } else if tag == 2 {
        let (count, p1) = match decode_u8(buf, pos) {
            Err(e) => {
                return Err(e);
            },
            Ok(v) => v,
        };
        let (s, p2) = match decode_ext_seq(buf, p1, count) {
            Err(e) => {
                return Err(e);
            },
            Ok(v) => v,
        };
        (ClientPacket::ClientInfoExtId { content_infos: s }, p2)
    } else if tag == 3 {
        let (count, p1) = match decode_u8(buf, pos) {
            Err(e) => {
                return Err(e);
            },
            Ok(v) => v,
        };
        let (s, p2) = match decode_md5_seq(buf, p1, count) {
            Err(e) => {
                return Err(e);
            },
            Ok(v) => v,
        };
        (ClientPacket::ClientInfoExtIdMd5 { content_infos: s }, p2)
    } else if tag == 5 {
        let (count, p1) = match decode_u16(buf, pos) {
            Err(e) => {
                return Err(e);
            },
            Ok(v) => v,
        };
        let (s, p2) = match decode_id_seq(buf, p1, count) {
            Err(e) => {
                return Err(e);
            },
            Ok(v) => v,
        };
        (ClientPacket::ClientContent { content_infos: s }, p2)
    } else {
        return Err(Error::NotSupported);
    };
    if end == n {
        Ok(packet)
    } else {
        Err(Error::PacketTooLong)
    }
}

/// Decodes and validates one packet body: the structural decode of
/// `from_bytes` followed by the cross-field rule of `ClientInfoList`.
pub fn read_packet(buf: &[u8]) -> (r: Result<ClientPacket, Error>)
    ensures
        (match r {
            Ok(p) => sread_packet(buf@) matches Ok(pv) && pv == p.deep_view(),
            Err(e) => sread_packet(buf@) == Err::<ClientPacketV, Error>(e),
        }),
{
    let packet = match from_bytes(buf) {
        Err(e) => {
            return Err(e);
        },
        Ok(p) => p,
    };
    let rule_ok = match &packet {
        ClientPacket::ClientInfoList { openttd_version, branches, .. } => {
            branches.is_some() == (*openttd_version == 0xFFFFFFFF)
        },
        _ => true,
    };
    if rule_ok {
        Ok(packet)
    } else {
        Err(Error::ValidationError)
    }
}

// ------------------------------------------------------------------
// Encoding the server-originated packet
// ------------------------------------------------------------------

pub open spec fn enc_dep_list(s: Seq<u32>) -> Seq<u8>
    decreases s.len(),
{
    if s.len() == 0 {
        Seq::empty()
    } else {
        enc_u32_le(s[0]) + enc_dep_list(s.drop_first())
    }
}

pub open spec fn enc_tag_list(s: Seq<Seq<char>>) -> Seq<u8>
    decreases s.len(),
{
    if s.len() == 0 {
        Seq::empty()
    } else {
        enc_str(s[0]) + enc_tag_list(s.drop_first())
    }
}

/// The body of a `ServerInfo` frame: the fields in catalogue order, each
/// count-prefixed sequence led by its one-byte element count.
pub open spec fn enc_server_body(v: ServerInfoV) -> Seq<u8> {
    enc_u8(content_type_code(v.content_type)) + enc_u32_le(v.content_id) + enc_u32_le(v.filesize)
        + enc_str(v.name) + enc_str(v.version) + enc_str(v.url) + enc_str(v.description)
        + enc_u32_le(v.unique_id) + v.md5 + enc_u8(v.dependencies.len() as u8) + enc_dep_list(
        v.dependencies,
    ) + enc_u8(v.tags.len() as u8) + enc_tag_list(v.tags)
}

/// Total frame length: the two length bytes themselves, the type tag, and
/// the body.
pub open spec fn server_frame_len(v: ServerInfoV) -> int {
    3 + enc_server_body(v).len() as int
}

/// A full server-originated frame: little-endian total length, the type
/// tag 4 of `ServerInfo`, then the body.
pub open spec fn enc_server_frame(v: ServerInfoV) -> Seq<u8> {
    enc_u16_le(server_frame_len(v) as u16) + seq![4u8] + enc_server_body(v)
}

/// A `ServerInfo` value fits on the wire when both sequence counts fit in
/// their one-byte length fields and the whole frame length fits in the
/// two-byte length prefix.
pub open spec fn server_info_encodable(v: ServerInfoV) -> bool {
    v.dependencies.len() <= 255 && v.tags.len() <= 255 && server_frame_len(v) <= 65535
}

// ------------------------------------------------------------------
// Specification-level decoding of the server-originated frame
// ------------------------------------------------------------------

pub open spec fn sdec_dep_list(b: Seq<u8>, pos: int, n: nat) -> Result<(Seq<u32>, int), Error>
    decreases n,
{
    if n == 0 {
        Ok((Seq::empty(), pos))
    } else {
        match sdec_u32(b, pos) {
            Err(e) => Err(e),
            Ok((v, p)) => match sdec_dep_list(b, p, (n - 1) as nat) {
                Err(e) => Err(e),
                Ok((s, q)) => Ok((seq![v] + s, q)),
            },
        }
    }
}

pub open spec fn sdec_tag_list(b: Seq<u8>, pos: int, n: nat) -> Result<
    (Seq<Seq<char>>, int),
    Error,
>
    decreases n,
{
    if n == 0 {
        Ok((Seq::empty(), pos))
    } else {
        match sdec_str(b, pos) {
            Err(e) => Err(e),
            Ok((v, p)) => match sdec_tag_list(b, p, (n - 1) as nat) {
                Err(e) => Err(e),
                Ok((s, q)) => Ok((seq![v] + s, q)),
            },
        }
    }
}

/// Reads one whole `ServerInfo` frame: the two length bytes, which must
/// count the entire buffer, the type tag 4, then the body fields, which
/// must consume the buffer exactly.  The direction is encode-only in this
/// system; this decoder is the specification-level inverse that the frame
/// round-trip law is stated against.
pub open spec fn sdec_server_info(b: Seq<u8>) -> Result<ServerInfoV, Error> {
    match sdec_u16(b, 0) {
        Err(e) => Err(e),
        Ok((total, p0)) => if total as int != b.len() {
            Err(Error::ValidationError)
        } else {
            match sdec_u8(b, p0) {
                Err(e) => Err(e),
                Ok((tag, p1)) => if tag != 4 {
                    Err(Error::NotSupported)
                } else {
                    sdec_server_fields(b, p1)
                },
            }
        },
    }
}

pub open spec fn sdec_server_fields(b: Seq<u8>, pos: int) -> Result<ServerInfoV, Error> {
    match sdec_content_type(b, pos) {
        Err(e) => Err(e),
        Ok((content_type, p1)) => match sdec_u32(b, p1) {
            Err(e) => Err(e),
            Ok((content_id, p2)) => match sdec_u32(b, p2) {
                Err(e) => Err(e),
                Ok((filesize, p3)) => match sdec_str(b, p3) {
                    Err(e) => Err(e),
                    Ok((name, p4)) => match sdec_str(b, p4) {
                        Err(e) => Err(e),
                        Ok((version, p5)) => match sdec_str(b, p5) {
                            Err(e) => Err(e),
                            Ok((url, p6)) => match sdec_str(b, p6) {
                                Err(e) => Err(e),
                                Ok((description, p7)) => match sdec_u32(b, p7) {
                                    Err(e) => Err(e),
                                    Ok((unique_id, p8)) => match sdec_md5_bytes(b, p8) {
                                        Err(e) => Err(e),
                                        Ok((md5, p9)) => match sdec_u8(b, p9) {
                                            Err(e) => Err(e),
                                            Ok((dep_count, p10)) => match sdec_dep_list(
                                                b,
                                                p10,
                                                dep_count as nat,
                                            ) {
                                                Err(e) => Err(e),
                                                Ok((dependencies, p11)) => match sdec_u8(b, p11) {
                                                    Err(e) => Err(e),
                                                    Ok((tag_count, p12)) => match sdec_tag_list(
                                                        b,
                                                        p12,
                                                        tag_count as nat,
                                                    ) {
                                                        Err(e) => Err(e),
                                                        Ok((tags, p13)) => if p13 == b.len() {
                                                            Ok(
                                                                ServerInfoV {
                                                                    content_type,
                                                                    content_id,
                                                                    filesize,
                                                                    name,
                                                                    version,
                                                                    url,
                                                                    description,
                                                                    unique_id,
                                                                    md5,
                                                                    dependencies,
                                                                    tags,
                                                                },
                                                            )
                                                        } else {
                                                            Err(Error::PacketTooLong)
                                                        },
                                                    },
                                                },
                                            },
                                        },
                                    },
                                },
                            },
                        },
                    },
                },
            },
        },
    }
}

/// A `ServerInfo` whose frame round-trips: it fits on the wire and its
/// strings survive nul-terminated framing.
pub open spec fn server_info_wire_valid(v: ServerInfoV) -> bool {
    &&& server_info_encodable(v)
    &&& v.md5.len() == 16
    &&& nul_free(v.name)
    &&& nul_free(v.version)
    &&& nul_free(v.url)
    &&& nul_free(v.description)
    &&& forall|i: int| 0 <= i < v.tags.len() ==> nul_free(#[trigger] v.tags[i])
}

proof fn lemma_enc_dep_list_snoc(s: Seq<u32>, lo: int, hi: int)
    requires
        0 <= lo <= hi < s.len(),
    ensures
        enc_dep_list(s.subrange(lo, hi + 1)) == enc_dep_list(s.subrange(lo, hi)) + enc_u32_le(
            s[hi],
        ),
    decreases hi - lo,
{
    if lo == hi {
        assert(s.subrange(lo, hi + 1) =~= seq![s[hi]]);
        assert(s.subrange(lo, hi) =~= Seq::<u32>::empty());
        assert(seq![s[hi]].drop_first() =~= Seq::<u32>::empty());
        assert(enc_dep_list(s.subrange(lo, hi)) + enc_u32_le(s[hi]) =~= enc_u32_le(s[hi])
            + Seq::<u8>::empty());
    } else {
        lemma_enc_dep_list_snoc(s, lo + 1, hi);
        assert(s.subrange(lo, hi + 1).drop_first() =~= s.subrange(lo + 1, hi + 1));
        assert(s.subrange(lo, hi).drop_first() =~= s.subrange(lo + 1, hi));
        assert(s.subrange(lo, hi + 1)[0] == s[lo]);
        assert(s.subrange(lo, hi)[0] == s[lo]);
        assert(enc_u32_le(s[lo]) + (enc_dep_list(s.subrange(lo + 1, hi)) + enc_u32_le(s[hi]))
            =~= (enc_u32_le(s[lo]) + enc_dep_list(s.subrange(lo + 1, hi))) + enc_u32_le(s[hi]));
    }
}

proof fn lemma_enc_tag_list_snoc(s: Seq<Seq<char>>, lo: int, hi: int)
    requires
        0 <= lo <= hi < s.len(),
    ensures
        enc_tag_list(s.subrange(lo, hi + 1)) == enc_tag_list(s.subrange(lo, hi)) + enc_str(s[hi]),
    decreases hi - lo,
{
    if lo == hi {
        assert(s.subrange(lo, hi + 1) =~= seq![s[hi]]);
        assert(s.subrange(lo, hi) =~= Seq::<Seq<char>>::empty());
        assert(seq![s[hi]].drop_first() =~= Seq::<Seq<char>>::empty());
        assert(enc_tag_list(s.subrange(lo, hi)) + enc_str(s[hi]) =~= enc_str(s[hi])
            + Seq::<u8>::empty());
    } else {
        lemma_enc_tag_list_snoc(s, lo + 1, hi);
        assert(s.subrange(lo, hi + 1).drop_first() =~= s.subrange(lo + 1, hi + 1));
        assert(s.subrange(lo, hi).drop_first() =~= s.subrange(lo + 1, hi));
        assert(s.subrange(lo, hi + 1)[0] == s[lo]);
        assert(s.subrange(lo, hi)[0] == s[lo]);
        assert(enc_str(s[lo]) + (enc_tag_list(s.subrange(lo + 1, hi)) + enc_str(s[hi]))
            =~= (enc_str(s[lo]) + enc_tag_list(s.subrange(lo + 1, hi))) + enc_str(s[hi]));
    }
}

/// Encodes a `ServerInfo` into one full frame: two little-endian length
/// bytes counting themselves, the type tag 4, then the body fields.  A
/// sequence whose count does not fit its one-byte length field is refused
/// through the generic error channel, as the original length check did; a
/// body that would overflow the two-byte frame length is refused as too
/// long.
pub fn to_bytes(v: &ServerInfo) -> (r: Result<Vec<u8>, Error>)
    requires
        v.md5@.len() == 16,
    ensures
        r is Ok <==> server_info_encodable(v.deep_view()),
        (r matches Ok(bytes) ==> bytes@ == enc_server_frame(v.deep_view())),
        (r is Err ==> (if v.dependencies@.len() > 255 || v.tags@.len() > 255 {
            r == Err::<Vec<u8>, Error>(Error::Message)
        } else {
            r == Err::<Vec<u8>, Error>(Error::PacketTooLong)
        })),
{
    let ghost vv = v.deep_view();
    if v.dependencies.len() > 255 || v.tags.len() > 255 {
        return Err(Error::Message);
    }
    let mut body: Vec<u8> = Vec::new();
    encode_u8(&mut body, v.content_type.code());
    encode_u32(&mut body, v.content_id);
    encode_u32(&mut body, v.filesize);
    encode_str(&mut body, v.name.as_str());
    encode_str(&mut body, v.version.as_str());
    encode_str(&mut body, v.url.as_str());
    encode_str(&mut body, v.description.as_str());
    encode_u32(&mut body, v.unique_id);
    append_bytes(&mut body, v.md5.as_slice());
    encode_u8(&mut body, v.dependencies.len() as u8);
    let ghost base_deps = body@;
    let mut di: usize = 0;
    while di < v.dependencies.len()
        invariant
            di <= v.dependencies@.len(),
            body@ == base_deps + enc_dep_list(vv.dependencies.subrange(0, di as int)),
            vv == v.deep_view(),
        decreases v.dependencies@.len() - di,
    {
        encode_u32(&mut body, v.dependencies[di]);
        proof {
            lemma_enc_dep_list_snoc(vv.dependencies, 0, di as int);
            assert((base_deps + enc_dep_list(vv.dependencies.subrange(0, di as int)))
                + enc_u32_le(vv.dependencies[di as int]) =~= base_deps + (enc_dep_list(
                vv.dependencies.subrange(0, di as int),
            ) + enc_u32_le(vv.dependencies[di as int])));
        }
        di = di + 1;
    }
    proof {
        assert(vv.dependencies.subrange(0, vv.dependencies.len() as int) =~= vv.dependencies);
    }
    encode_u8(&mut body, v.tags.len() as u8);
    let ghost base_tags = body@;
    let mut ti: usize = 0;
    while ti < v.tags.len()
        invariant
            ti <= v.tags@.len(),
            body@ == base_tags + enc_tag_list(vv.tags.subrange(0, ti as int)),
            vv == v.deep_view(),
        decreases v.tags@.len() - ti,
    {
        encode_str(&mut body, v.tags[ti].as_str());
        proof {
            lemma_enc_tag_list_snoc(vv.tags, 0, ti as int);
            assert((base_tags + enc_tag_list(vv.tags.subrange(0, ti as int))) + enc_str(
                vv.tags[ti as int],
            ) =~= base_tags + (enc_tag_list(vv.tags.subrange(0, ti as int)) + enc_str(
                vv.tags[ti as int],
            )));
        }
        ti = ti + 1;
    }
    proof {
        assert(vv.tags.subrange(0, vv.tags.len() as int) =~= vv.tags);
        assert(body@ =~= enc_server_body(vv));
    }
    if body.len() > 65532 {
        return Err(Error::PacketTooLong);
    }
    let total: u16 = (body.len() + 3) as u16;
    let mut out: Vec<u8> = Vec::new();
    encode_u16(&mut out, total);
    encode_u8(&mut out, 4);
    append_bytes(&mut out, body.as_slice());
    proof {
        assert(out@ =~= enc_server_frame(vv));
    }
    Ok(out)
}

} // verus!
