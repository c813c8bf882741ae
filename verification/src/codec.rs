//! The byte layout of the entity records.
//!
//! Every record is a concatenation of fields, each either a 64-bit value as
//! eight little-endian bytes or a string as its UTF-8 length (eight bytes)
//! followed by its UTF-8 bytes. A record must fit [`MAX_RECORD_BYTES`], the
//! fixed per-record bound of the backing stores; an oversized record is a
//! storage fault, not a domain error.

use crate::model::{
    BidStatus, Player, PlayerView, Transfer, TransferBid, TransferBidView, TransferStatus,
    TransferView,
};
use vstd::prelude::*;
use vstd::slice::{slice_subrange, slice_to_vec};
use vstd::string::StrSliceExecFns;
use vstd::utf8::{
    decode_utf8, encode_utf8, encode_utf8_decode_utf8, encode_utf8_valid_utf8, valid_utf8,
};

verus! {

/// Upper bound on the length of one encoded record.
pub const MAX_RECORD_BYTES: usize = 1024;

/// The eight little-endian bytes of a 64-bit value.
#[verifier::opaque]
pub open spec fn u64_le(x: u64) -> Seq<u8> {
    seq![
        (x % 256) as u8,
        ((x / 256) % 256) as u8,
        ((x / 65536) % 256) as u8,
        ((x / 16777216) % 256) as u8,
        ((x / 4294967296) % 256) as u8,
        ((x / 1099511627776) % 256) as u8,
        ((x / 281474976710656) % 256) as u8,
        ((x / 72057594037927936) % 256) as u8,
    ]
}

pub broadcast proof fn lemma_u64_le_len(x: u64)
    ensures
        #[trigger] u64_le(x).len() == 8,
{
    reveal(u64_le);
}

/// Two 64-bit values with the same little-endian bytes are the same value.
pub proof fn lemma_u64_le_injective(a: u64, b: u64)
    requires
        u64_le(a) == u64_le(b),
    ensures
        a == b,
{
    reveal(u64_le);
    assert(u64_le(a)[0] == u64_le(b)[0]);
    assert(u64_le(a)[1] == u64_le(b)[1]);
    assert(u64_le(a)[2] == u64_le(b)[2]);
    assert(u64_le(a)[3] == u64_le(b)[3]);
    assert(u64_le(a)[4] == u64_le(b)[4]);
    assert(u64_le(a)[5] == u64_le(b)[5]);
    assert(u64_le(a)[6] == u64_le(b)[6]);
    assert(u64_le(a)[7] == u64_le(b)[7]);
    assert(a == b) by (bit_vector)
        requires
            a % 256 == b % 256,
            (a / 256) % 256 == (b / 256) % 256,
            (a / 65536) % 256 == (b / 65536) % 256,
            (a / 16777216) % 256 == (b / 16777216) % 256,
            (a / 4294967296) % 256 == (b / 4294967296) % 256,
            (a / 1099511627776) % 256 == (b / 1099511627776) % 256,
            (a / 281474976710656) % 256 == (b / 281474976710656) % 256,
            (a / 72057594037927936) % 256 == (b / 72057594037927936) % 256,
    ;
}

/// Appends the eight little-endian bytes of `x`.
pub fn push_u64(buf: &mut Vec<u8>, x: u64)
    ensures
        final(buf)@ == old(buf)@ + u64_le(x),
{
    buf.push((x % 256) as u8);
    buf.push(((x / 256) % 256) as u8);
    buf.push(((x / 65536) % 256) as u8);
    buf.push(((x / 16777216) % 256) as u8);
    buf.push(((x / 4294967296) % 256) as u8);
    buf.push(((x / 1099511627776) % 256) as u8);
    buf.push(((x / 281474976710656) % 256) as u8);
    buf.push(((x / 72057594037927936) % 256) as u8);
    proof {
        reveal(u64_le);
        assert(buf@ =~= old(buf)@ + u64_le(x));
    }
}

/// Reads eight little-endian bytes at `*pos` and advances `*pos`, or reports
/// that fewer than eight bytes remain, leaving `*pos` unchanged.
pub fn read_u64(b: &Vec<u8>, pos: &mut usize) -> (r: Option<u64>)
    ensures
        match r {
            Some(x) => {
                &&& *old(pos) + 8 <= b@.len()
                &&& *final(pos) == *old(pos) + 8
                &&& b@.subrange(*old(pos) as int, *final(pos) as int) == u64_le(x)
            },
            None => *final(pos) == *old(pos) && b@.len() < *old(pos) + 8,
        },
{
    let n = b.len();
    if n < 8 || *pos > n - 8 {
        return None;
    }
    let i = *pos;
    let y0 = b[i] as u64;
    let y1 = b[i + 1] as u64;
    let y2 = b[i + 2] as u64;
    let y3 = b[i + 3] as u64;
    let y4 = b[i + 4] as u64;
    let y5 = b[i + 5] as u64;
    let y6 = b[i + 6] as u64;
    let y7 = b[i + 7] as u64;
    let x = y0 | (y1 << 8u64) | (y2 << 16u64) | (y3 << 24u64) | (y4 << 32u64) | (y5 << 40u64)
        | (y6 << 48u64) | (y7 << 56u64);
    *pos = i + 8;
    proof {
        assert(x % 256 == y0 && (x / 256) % 256 == y1 && (x / 65536) % 256 == y2 && (x
            / 16777216) % 256 == y3 && (x / 4294967296) % 256 == y4 && (x / 1099511627776) % 256
            == y5 && (x / 281474976710656) % 256 == y6 && (x / 72057594037927936) % 256 == y7)
            by (bit_vector)
            requires
                x == y0 | (y1 << 8u64) | (y2 << 16u64) | (y3 << 24u64) | (y4 << 32u64) | (y5
                    << 40u64) | (y6 << 48u64) | (y7 << 56u64),
                y0 < 256 && y1 < 256 && y2 < 256 && y3 < 256,
                y4 < 256 && y5 < 256 && y6 < 256 && y7 < 256,
        ;
        reveal(u64_le);
        assert(b@.subrange(i as int, i as int + 8) =~= u64_le(x));
    }
    Some(x)
}

/// A subrange of a concatenation splits at the length of its left part.
pub proof fn lemma_subrange_split(b: Seq<u8>, i: int, j: int, x: Seq<u8>, y: Seq<u8>)
    requires
        0 <= i,
        i + x.len() + y.len() == j,
        j <= b.len(),
        b.subrange(i, j) == x + y,
    ensures
        b.subrange(i, i + x.len() as int) == x,
        b.subrange(i + x.len() as int, j) == y,
{
    assert forall|k: int| 0 <= k < j - i implies b[i + k] == (x + y)[k] by {
        assert(b.subrange(i, j)[k] == (x + y)[k]);
    }
    assert(b.subrange(i, i + x.len() as int) =~= x);
    assert forall|k: int| 0 <= k < y.len() implies b.subrange(i + x.len() as int, j)[k] == y[k] by {
        assert(b[i + (x.len() + k)] == (x + y)[x.len() + k]);
    }
    assert(b.subrange(i + x.len() as int, j) =~= y);
}

/// Adjacent subranges concatenate to the enclosing subrange.
pub proof fn lemma_subrange_join(b: Seq<u8>, i: int, m: int, j: int)
    requires
        0 <= i <= m <= j <= b.len(),
    ensures
        b.subrange(i, j) == b.subrange(i, m) + b.subrange(m, j),
{
    assert(b.subrange(i, j) =~= b.subrange(i, m) + b.subrange(m, j));
}

/// A string's record bytes: its UTF-8 length as eight little-endian bytes,
/// then its UTF-8 bytes.
pub open spec fn enc_str(s: Seq<char>) -> Seq<u8> {
    u64_le(encode_utf8(s).len() as u64) + encode_utf8(s)
}

/// Relies on `String::from_utf8`: it succeeds exactly on valid UTF-8 input,
/// returning the string whose characters are that input's UTF-8 decoding.
#[verifier::external_body]
fn bytes_to_string(b: Vec<u8>) -> (r: Option<String>)
    ensures
        match r {
            Some(s) => valid_utf8(b@) && s@ == decode_utf8(b@),
            None => !valid_utf8(b@),
        },
{
    String::from_utf8(b).ok()
}

/// Appends the record bytes of `s`.
pub fn push_str(buf: &mut Vec<u8>, s: &String)
    ensures
        final(buf)@ == old(buf)@ + enc_str(s@),
{
    proof {
        broadcast use lemma_u64_le_len;

    }
    let mut bytes = s.as_str().as_bytes_vec();
    let l = bytes.len() as u64;
    push_u64(buf, l);
    buf.append(&mut bytes);
    assert(buf@ =~= old(buf)@ + enc_str(s@));
}

/// Reads one string record at `*pos` and advances `*pos` past it; on any
/// failure (truncated input, or bytes that are not UTF-8) `*pos` is left
/// unchanged. Whenever the bytes at `*pos` are the record of some string,
/// the read succeeds and returns exactly that string.
pub fn read_str(b: &Vec<u8>, pos: &mut usize) -> (r: Option<String>)
    ensures
        match r {
            Some(s) => {
                &&& *old(pos) + 8 + encode_utf8(s@).len() <= b@.len()
                &&& *final(pos) == *old(pos) + 8 + encode_utf8(s@).len()
                &&& b@.subrange(*old(pos) as int, *final(pos) as int) == enc_str(s@)
            },
            None => *final(pos) == *old(pos),
        },
        forall|t: Seq<char>|
            *old(pos) + 8 + encode_utf8(t).len() <= b@.len() && b@.subrange(
                *old(pos) as int,
                *old(pos) + 8 + encode_utf8(t).len(),
            ) == enc_str(t) ==> (r matches Some(s) && s@ == t),
{
    proof {
        broadcast use lemma_u64_le_len;

    }
    let ghost i0 = *pos as int;
    let n = b.len();
    let i = *pos;
    let l_opt = read_u64(b, pos);
    let l = match l_opt {
        None => {
            proof {
                assert forall|t: Seq<char>|
                    i0 + 8 + encode_utf8(t).len() <= b@.len() && b@.subrange(
                        i0,
                        i0 + 8 + encode_utf8(t).len(),
                    ) == enc_str(t) implies false by {};
            }
            return None;
        },
        Some(l) => l,
    };
    // *pos == i + 8 and b@[i .. i + 8] == u64_le(l)
    proof {
        assert forall|t: Seq<char>|
            i0 + 8 + encode_utf8(t).len() <= b@.len() && b@.subrange(
                i0,
                i0 + 8 + encode_utf8(t).len(),
            ) == enc_str(t) implies encode_utf8(t).len() == l && b@.subrange(
            i0 + 8,
            i0 + 8 + encode_utf8(t).len(),
        ) == encode_utf8(t) by {
            lemma_subrange_split(
                b@,
                i0,
                i0 + 8 + encode_utf8(t).len(),
                u64_le(encode_utf8(t).len() as u64),
                encode_utf8(t),
            );
            lemma_u64_le_injective(l, encode_utf8(t).len() as u64);
        }
    }
    if l > (n - i - 8) as u64 {
        *pos = i;
        return None;
    }
    let l_us = l as usize;
    let chunk = slice_to_vec(slice_subrange(b.as_slice(), i + 8, i + 8 + l_us));
    proof {
        lemma_subrange_join(b@, i0, i0 + 8, i0 + 8 + l as int);
    }
    match bytes_to_string(chunk) {
        None => {
            *pos = i;
            proof {
                assert forall|t: Seq<char>|
                    i0 + 8 + encode_utf8(t).len() <= b@.len() && b@.subrange(
                        i0,
                        i0 + 8 + encode_utf8(t).len(),
                    ) == enc_str(t) implies false by {
                    encode_utf8_valid_utf8(t);
                };
            }
            None
        },
        Some(s) => {
            *pos = i + 8 + l_us;
            proof {
                vstd::utf8::decode_utf8_encode_utf8(chunk@);
                assert(encode_utf8(s@) == chunk@);
                assert(b@.subrange(i0, i0 + 8 + l as int) =~= u64_le(l) + chunk@);
                assert(b@.subrange(i0, i0 + 8 + l as int) == enc_str(s@));
                assert forall|t: Seq<char>|
                    i0 + 8 + encode_utf8(t).len() <= b@.len() && b@.subrange(
                        i0,
                        i0 + 8 + encode_utf8(t).len(),
                    ) == enc_str(t) implies s@ == t by {
                    assert(chunk@ == encode_utf8(t));
                    encode_utf8_decode_utf8(t);
                };
            }
            Some(s)
        },
    }
}

/// The numeric code a transfer status is stored as.
pub open spec fn status_code(s: TransferStatus) -> u64 {
    match s {
        TransferStatus::Available => 0,
        TransferStatus::Transferred => 1,
    }
}

fn encode_status(s: TransferStatus) -> (c: u64)
    ensures
        c == status_code(s),
{
    match s {
        TransferStatus::Available => 0,
        TransferStatus::Transferred => 1,
    }
}

fn decode_status(c: u64) -> (r: Option<TransferStatus>)
    ensures
        match r {
            Some(s) => status_code(s) == c,
            None => c != 0 && c != 1,
        },
{
    if c == 0 {
        Some(TransferStatus::Available)
    } else if c == 1 {
        Some(TransferStatus::Transferred)
    } else {
        None
    }
}

/// The numeric code a bid status is stored as.
pub open spec fn bid_status_code(s: BidStatus) -> u64 {
    match s {
        BidStatus::Pending => 0,
        BidStatus::Accepted => 1,
        BidStatus::Rejected => 2,
    }
}

fn encode_bid_status(s: BidStatus) -> (c: u64)
    ensures
        c == bid_status_code(s),
{
    match s {
        BidStatus::Pending => 0,
        BidStatus::Accepted => 1,
        BidStatus::Rejected => 2,
    }
}

fn decode_bid_status(c: u64) -> (r: Option<BidStatus>)
    ensures
        match r {
            Some(s) => bid_status_code(s) == c,
            None => c != 0 && c != 1 && c != 2,
        },
{
    if c == 0 {
        Some(BidStatus::Pending)
    } else if c == 1 {
        Some(BidStatus::Accepted)
    } else if c == 2 {
        Some(BidStatus::Rejected)
    } else {
        None
    }
}

/// The record bytes of a player: every field in declaration order.
#[verifier::opaque]
pub open spec fn spec_encode_player(p: PlayerView) -> Seq<u8> {
    u64_le(p.id) + (enc_str(p.name) + (enc_str(p.position) + (enc_str(p.current_club) + (u64_le(
        p.market_value,
    ) + (u64_le(status_code(p.transfer_status)) + (u64_le(p.contract_until) + (u64_le(
        p.age as u64,
    ) + (enc_str(p.nationality) + u64_le(p.created_at)))))))))
}

/// The length of a player's record: ten fields of eight bytes each (a string
/// field's fixed part is its length prefix), plus the UTF-8 bytes of its four
/// strings.
pub open spec fn player_record_len(p: PlayerView) -> int {
    80 + encode_utf8(p.name).len() as int + encode_utf8(p.position).len() as int + encode_utf8(
        p.current_club,
    ).len() as int + encode_utf8(p.nationality).len() as int
}

pub proof fn lemma_player_record_len(p: PlayerView)
    ensures
        spec_encode_player(p).len() == player_record_len(p),
{
    broadcast use lemma_u64_le_len;

    reveal(spec_encode_player);
}

/// Encodes a player, or reports that its record would exceed
/// [`MAX_RECORD_BYTES`].
pub fn encode_player(p: &Player) -> (r: Option<Vec<u8>>)
    ensures
        match r {
            Some(v) => v@ == spec_encode_player(p@) && v@.len() <= MAX_RECORD_BYTES,
            None => spec_encode_player(p@).len() > MAX_RECORD_BYTES,
        },
{
    let mut buf: Vec<u8> = Vec::new();
    push_u64(&mut buf, p.id);
    push_str(&mut buf, &p.name);
    push_str(&mut buf, &p.position);
    push_str(&mut buf, &p.current_club);
    push_u64(&mut buf, p.market_value);
    push_u64(&mut buf, encode_status(p.transfer_status));
    push_u64(&mut buf, p.contract_until);
    push_u64(&mut buf, p.age as u64);
    push_str(&mut buf, &p.nationality);
    push_u64(&mut buf, p.created_at);
    proof {
        broadcast use lemma_u64_le_len;

        reveal(spec_encode_player);
        assert(buf@ =~= spec_encode_player(p@));
    }
    if buf.len() <= MAX_RECORD_BYTES {
        Some(buf)
    } else {
        None
    }
}

/// Decodes a player record. Whenever the bytes are the record of some player
/// value, the decode succeeds and returns exactly that value.
pub fn decode_player(b: &Vec<u8>) -> (r: Option<Player>)
    ensures
        forall|pv: PlayerView| b@ == spec_encode_player(pv) ==> (r matches Some(p) && p@ == pv),
{
    let mut pos: usize = 0;
    let id = read_u64(b, &mut pos);
    let ghost o1 = pos as int;
    let name = read_str(b, &mut pos);
    let ghost o2 = pos as int;
    let position = read_str(b, &mut pos);
    let ghost o3 = pos as int;
    let current_club = read_str(b, &mut pos);
    let ghost o4 = pos as int;
    let market_value = read_u64(b, &mut pos);
    let ghost o5 = pos as int;
    let status_c = read_u64(b, &mut pos);
    let ghost o6 = pos as int;
    let contract_until = read_u64(b, &mut pos);
    let ghost o7 = pos as int;
    let age64 = read_u64(b, &mut pos);
    let ghost o8 = pos as int;
    let nationality = read_str(b, &mut pos);
    let ghost o9 = pos as int;
    let created_at = read_u64(b, &mut pos);
    let r: Option<Player> = match (
        id,
        name,
        position,
        current_club,
        market_value,
        status_c,
        contract_until,
        age64,
        nationality,
        created_at,
    ) {
        (
            Some(id),
            Some(name),
            Some(position),
            Some(current_club),
            Some(market_value),
            Some(status_c),
            Some(contract_until),
            Some(age64),
            Some(nationality),
            Some(created_at),
        ) => {
            match (decode_status(status_c), age64 <= 4294967295u64) {
                (Some(transfer_status), true) => Some(
                    Player {
                        id,
                        name,
                        position,
                        current_club,
                        market_value,
                        transfer_status,
                        contract_until,
                        age: age64 as u32,
                        nationality,
                        created_at,
                    },
                ),
                _ => None,
            }
        },
        _ => None,
    };
    proof {
        assert forall|pv: PlayerView| b@ == spec_encode_player(pv) implies (r matches Some(p)
            && p@ == pv) by {
            broadcast use lemma_u64_le_len;

            reveal(spec_encode_player);
            let n = b@.len() as int;
            let f1 = u64_le(pv.id);
            let f2 = enc_str(pv.name);
            let f3 = enc_str(pv.position);
            let f4 = enc_str(pv.current_club);
            let f5 = u64_le(pv.market_value);
            let f6 = u64_le(status_code(pv.transfer_status));
            let f7 = u64_le(pv.contract_until);
            let f8 = u64_le(pv.age as u64);
            let f9 = enc_str(pv.nationality);
            let f10 = u64_le(pv.created_at);
            let r9 = f9 + f10;
            let r8 = f8 + r9;
            let r7 = f7 + r8;
            let r6 = f6 + r7;
            let r5 = f5 + r6;
            let r4 = f4 + r5;
            let r3 = f3 + r4;
            let r2 = f2 + r3;
            assert(b@.subrange(0, n) =~= b@);
            lemma_subrange_split(b@, 0, n, f1, r2);
            match id {
                Some(x) => lemma_u64_le_injective(x, pv.id),
                None => {},
            }
            assert(id == Some(pv.id) && o1 == 8);
            lemma_subrange_split(b@, o1, n, f2, r3);
            lemma_subrange_split(b@, o1, o1 + f2.len(), u64_le(encode_utf8(pv.name).len() as u64), encode_utf8(pv.name));
            assert(o1 + 8 + encode_utf8(pv.name).len() <= b@.len() && b@.subrange(
                o1,
                o1 + 8 + encode_utf8(pv.name).len(),
            ) == enc_str(pv.name));
            assert(name matches Some(s) && s@ == pv.name && o2 == o1 + f2.len());
            lemma_subrange_split(b@, o2, n, f3, r4);
            assert(o2 + 8 + encode_utf8(pv.position).len() <= b@.len() && b@.subrange(
                o2,
                o2 + 8 + encode_utf8(pv.position).len(),
            ) == enc_str(pv.position));
            assert(position matches Some(s) && s@ == pv.position && o3 == o2 + f3.len());
            lemma_subrange_split(b@, o3, n, f4, r5);
            assert(o3 + 8 + encode_utf8(pv.current_club).len() <= b@.len() && b@.subrange(
                o3,
                o3 + 8 + encode_utf8(pv.current_club).len(),
            ) == enc_str(pv.current_club));
            assert(current_club matches Some(s) && s@ == pv.current_club && o4 == o3 + f4.len());
            lemma_subrange_split(b@, o4, n, f5, r6);
            match market_value {
                Some(x) => lemma_u64_le_injective(x, pv.market_value),
                None => {},
            }
            assert(market_value == Some(pv.market_value) && o5 == o4 + 8);
            lemma_subrange_split(b@, o5, n, f6, r7);
            match status_c {
                Some(x) => lemma_u64_le_injective(x, status_code(pv.transfer_status)),
                None => {},
            }
            assert(status_c == Some(status_code(pv.transfer_status)) && o6 == o5 + 8);
            lemma_subrange_split(b@, o6, n, f7, r8);
            match contract_until {
                Some(x) => lemma_u64_le_injective(x, pv.contract_until),
                None => {},
            }
            assert(contract_until == Some(pv.contract_until) && o7 == o6 + 8);
            lemma_subrange_split(b@, o7, n, f8, r9);
            match age64 {
                Some(x) => lemma_u64_le_injective(x, pv.age as u64),
                None => {},
            }
            assert(age64 == Some(pv.age as u64) && o8 == o7 + 8);
            lemma_subrange_split(b@, o8, n, f9, f10);
            assert(o8 + 8 + encode_utf8(pv.nationality).len() <= b@.len() && b@.subrange(
                o8,
                o8 + 8 + encode_utf8(pv.nationality).len(),
            ) == enc_str(pv.nationality));
            assert(nationality matches Some(s) && s@ == pv.nationality && o9 == o8 + f9.len());
            assert(b@.subrange(o9, n) =~= u64_le(pv.created_at));
            match created_at {
                Some(x) => lemma_u64_le_injective(x, pv.created_at),
                None => {},
            }
            assert(created_at == Some(pv.created_at));
            assert(r matches Some(p) && p@ == pv);
        }
    }
    r
}

/// The record bytes of a transfer: every field in declaration order.
#[verifier::opaque]
pub open spec fn spec_encode_transfer(t: TransferView) -> Seq<u8> {
    u64_le(t.id) + (u64_le(t.player_id) + (enc_str(t.from_club) + (enc_str(t.to_club) + (u64_le(
        t.transfer_fee,
    ) + (u64_le(t.transfer_date) + (u64_le(t.contract_duration) + u64_le(t.created_at)))))))
}

/// The length of a transfer's record: eight fields of eight bytes each (a
/// string field's fixed part is its length prefix), plus the UTF-8 bytes of
/// its two strings.
pub open spec fn transfer_record_len(t: TransferView) -> int {
    64 + encode_utf8(t.from_club).len() as int + encode_utf8(t.to_club).len() as int
}

pub proof fn lemma_transfer_record_len(t: TransferView)
    ensures
        spec_encode_transfer(t).len() == transfer_record_len(t),
{
    broadcast use lemma_u64_le_len;

    reveal(spec_encode_transfer);
}

/// Encodes a transfer, or reports that its record would exceed
/// [`MAX_RECORD_BYTES`].
pub fn encode_transfer(t: &Transfer) -> (r: Option<Vec<u8>>)
    ensures
        match r {
            Some(v) => v@ == spec_encode_transfer(t@) && v@.len() <= MAX_RECORD_BYTES,
            None => spec_encode_transfer(t@).len() > MAX_RECORD_BYTES,
        },
{
    let mut buf: Vec<u8> = Vec::new();
    push_u64(&mut buf, t.id);
    push_u64(&mut buf, t.player_id);
    push_str(&mut buf, &t.from_club);
    push_str(&mut buf, &t.to_club);
    push_u64(&mut buf, t.transfer_fee);
    push_u64(&mut buf, t.transfer_date);
    push_u64(&mut buf, t.contract_duration);
    push_u64(&mut buf, t.created_at);
    proof {
        broadcast use lemma_u64_le_len;

        reveal(spec_encode_transfer);
        assert(buf@ =~= spec_encode_transfer(t@));
    }
    if buf.len() <= MAX_RECORD_BYTES {
        Some(buf)
    } else {
        None
    }
}

/// Decodes a transfer record. Whenever the bytes are the record of some
/// transfer value, the decode succeeds and returns exactly that value.
pub fn decode_transfer(b: &Vec<u8>) -> (r: Option<Transfer>)
    ensures
        forall|tv: TransferView| b@ == spec_encode_transfer(tv) ==> (r matches Some(t) && t@
            == tv),
{
    let mut pos: usize = 0;
    let id = read_u64(b, &mut pos);
    let ghost o1 = pos as int;
    let player_id = read_u64(b, &mut pos);
    let ghost o2 = pos as int;
    let from_club = read_str(b, &mut pos);
    let ghost o3 = pos as int;
    let to_club = read_str(b, &mut pos);
    let ghost o4 = pos as int;
    let transfer_fee = read_u64(b, &mut pos);
    let ghost o5 = pos as int;
    let transfer_date = read_u64(b, &mut pos);
    let ghost o6 = pos as int;
    let contract_duration = read_u64(b, &mut pos);
    let ghost o7 = pos as int;
    let created_at = read_u64(b, &mut pos);
    let r: Option<Transfer> = match (
        id,
        player_id,
        from_club,
        to_club,
        transfer_fee,
        transfer_date,
        contract_duration,
        created_at,
    ) {
        (
            Some(id),
            Some(player_id),
            Some(from_club),
            Some(to_club),
            Some(transfer_fee),
            Some(transfer_date),
            Some(contract_duration),
            Some(created_at),
        ) => Some(
            Transfer {
                id,
                player_id,
                from_club,
                to_club,
                transfer_fee,
                transfer_date,
                contract_duration,
                created_at,
            },
        ),
        _ => None,
    };
    proof {
        assert forall|tv: TransferView| b@ == spec_encode_transfer(tv) implies (r matches Some(t)
            && t@ == tv) by {
            broadcast use lemma_u64_le_len;

            reveal(spec_encode_transfer);
            let n = b@.len() as int;
            let f1 = u64_le(tv.id);
            let f2 = u64_le(tv.player_id);
            let f3 = enc_str(tv.from_club);
            let f4 = enc_str(tv.to_club);
            let f5 = u64_le(tv.transfer_fee);
            let f6 = u64_le(tv.transfer_date);
            let f7 = u64_le(tv.contract_duration);
            let f8 = u64_le(tv.created_at);
            let r7 = f7 + f8;
            let r6 = f6 + r7;
            let r5 = f5 + r6;
            let r4 = f4 + r5;
            let r3 = f3 + r4;
            let r2 = f2 + r3;
            assert(b@.subrange(0, n) =~= b@);
            lemma_subrange_split(b@, 0, n, f1, r2);
            match id {
                Some(x) => lemma_u64_le_injective(x, tv.id),
                None => {},
            }
            assert(id == Some(tv.id) && o1 == 8);
            lemma_subrange_split(b@, o1, n, f2, r3);
            match player_id {
                Some(x) => lemma_u64_le_injective(x, tv.player_id),
                None => {},
            }
            assert(player_id == Some(tv.player_id) && o2 == o1 + 8);
            lemma_subrange_split(b@, o2, n, f3, r4);
            assert(o2 + 8 + encode_utf8(tv.from_club).len() <= b@.len() && b@.subrange(
                o2,
                o2 + 8 + encode_utf8(tv.from_club).len(),
            ) == enc_str(tv.from_club));
            assert(from_club matches Some(s) && s@ == tv.from_club && o3 == o2 + f3.len());
            lemma_subrange_split(b@, o3, n, f4, r5);
            assert(o3 + 8 + encode_utf8(tv.to_club).len() <= b@.len() && b@.subrange(
                o3,
                o3 + 8 + encode_utf8(tv.to_club).len(),
            ) == enc_str(tv.to_club));
            assert(to_club matches Some(s) && s@ == tv.to_club && o4 == o3 + f4.len());
            lemma_subrange_split(b@, o4, n, f5, r6);
            match transfer_fee {
                Some(x) => lemma_u64_le_injective(x, tv.transfer_fee),
                None => {},
            }
            assert(transfer_fee == Some(tv.transfer_fee) && o5 == o4 + 8);
            lemma_subrange_split(b@, o5, n, f6, r7);
            match transfer_date {
                Some(x) => lemma_u64_le_injective(x, tv.transfer_date),
                None => {},
            }
            assert(transfer_date == Some(tv.transfer_date) && o6 == o5 + 8);
            lemma_subrange_split(b@, o6, n, f7, f8);
            match contract_duration {
                Some(x) => lemma_u64_le_injective(x, tv.contract_duration),
                None => {},
            }
            assert(contract_duration == Some(tv.contract_duration) && o7 == o6 + 8);
            assert(b@.subrange(o7, n) =~= u64_le(tv.created_at));
            match created_at {
                Some(x) => lemma_u64_le_injective(x, tv.created_at),
                None => {},
            }
            assert(created_at == Some(tv.created_at));
            assert(r matches Some(t) && t@ == tv);
        }
    }
    r
}

/// The record bytes of a transfer bid: every field in declaration order.
#[verifier::opaque]
pub open spec fn spec_encode_bid(v: TransferBidView) -> Seq<u8> {
    u64_le(v.id) + (u64_le(v.player_id) + (enc_str(v.from_club) + (enc_str(v.to_club) + (u64_le(
        v.bid_amount,
    ) + (u64_le(bid_status_code(v.bid_status)) + u64_le(v.created_at))))))
}

/// The length of a bid's record: seven fields of eight bytes each (a string
/// field's fixed part is its length prefix), plus the UTF-8 bytes of its two
/// strings.
pub open spec fn bid_record_len(v: TransferBidView) -> int {
    56 + encode_utf8(v.from_club).len() as int + encode_utf8(v.to_club).len() as int
}

pub proof fn lemma_bid_record_len(v: TransferBidView)
    ensures
        spec_encode_bid(v).len() == bid_record_len(v),
{
    broadcast use lemma_u64_le_len;

    reveal(spec_encode_bid);
}

/// Encodes a bid, or reports that its record would exceed
/// [`MAX_RECORD_BYTES`].
pub fn encode_bid(v: &TransferBid) -> (r: Option<Vec<u8>>)
    ensures
        match r {
            Some(b) => b@ == spec_encode_bid(v@) && b@.len() <= MAX_RECORD_BYTES,
            None => spec_encode_bid(v@).len() > MAX_RECORD_BYTES,
        },
{
    let mut buf: Vec<u8> = Vec::new();
    push_u64(&mut buf, v.id);
    push_u64(&mut buf, v.player_id);
    push_str(&mut buf, &v.from_club);
    push_str(&mut buf, &v.to_club);
    push_u64(&mut buf, v.bid_amount);
    push_u64(&mut buf, encode_bid_status(v.bid_status));
    push_u64(&mut buf, v.created_at);
    proof {
        broadcast use lemma_u64_le_len;

        reveal(spec_encode_bid);
        assert(buf@ =~= spec_encode_bid(v@));
    }
    if buf.len() <= MAX_RECORD_BYTES {
        Some(buf)
    } else {
        None
    }
}

/// Decodes a bid record. Whenever the bytes are the record of some bid value,
/// the decode succeeds and returns exactly that value.
pub fn decode_bid(b: &Vec<u8>) -> (r: Option<TransferBid>)
    ensures
        forall|bv: TransferBidView| b@ == spec_encode_bid(bv) ==> (r matches Some(v) && v@ == bv),
{
    let mut pos: usize = 0;
    let id = read_u64(b, &mut pos);
    let ghost o1 = pos as int;
    let player_id = read_u64(b, &mut pos);
    let ghost o2 = pos as int;
    let from_club = read_str(b, &mut pos);
    let ghost o3 = pos as int;
    let to_club = read_str(b, &mut pos);
    let ghost o4 = pos as int;
    let bid_amount = read_u64(b, &mut pos);
    let ghost o5 = pos as int;
    let status_c = read_u64(b, &mut pos);
    let ghost o6 = pos as int;
    let created_at = read_u64(b, &mut pos);
    let r: Option<TransferBid> = match (
        id,
        player_id,
        from_club,
        to_club,
        bid_amount,
        status_c,
        created_at,
    ) {
        (
            Some(id),
            Some(player_id),
            Some(from_club),
            Some(to_club),
            Some(bid_amount),
            Some(status_c),
            Some(created_at),
        ) => {
            match decode_bid_status(status_c) {
                Some(bid_status) => Some(
                    TransferBid {
                        id,
                        player_id,
                        from_club,
                        to_club,
                        bid_amount,
                        bid_status,
                        created_at,
                    },
                ),
                None => None,
            }
        },
        _ => None,
    };
    proof {
        assert forall|bv: TransferBidView| b@ == spec_encode_bid(bv) implies (r matches Some(v)
            && v@ == bv) by {
            broadcast use lemma_u64_le_len;

            reveal(spec_encode_bid);
            let n = b@.len() as int;
            let f1 = u64_le(bv.id);
            let f2 = u64_le(bv.player_id);
            let f3 = enc_str(bv.from_club);
            let f4 = enc_str(bv.to_club);
            let f5 = u64_le(bv.bid_amount);
            let f6 = u64_le(bid_status_code(bv.bid_status));
            let f7 = u64_le(bv.created_at);
            let r6 = f6 + f7;
            let r5 = f5 + r6;
            let r4 = f4 + r5;
            let r3 = f3 + r4;
            let r2 = f2 + r3;
            assert(b@.subrange(0, n) =~= b@);
            lemma_subrange_split(b@, 0, n, f1, r2);
            match id {
                Some(x) => lemma_u64_le_injective(x, bv.id),
                None => {},
            }
            assert(id == Some(bv.id) && o1 == 8);
            lemma_subrange_split(b@, o1, n, f2, r3);
            match player_id {
                Some(x) => lemma_u64_le_injective(x, bv.player_id),
                None => {},
            }
            assert(player_id == Some(bv.player_id) && o2 == o1 + 8);
            lemma_subrange_split(b@, o2, n, f3, r4);
            assert(o2 + 8 + encode_utf8(bv.from_club).len() <= b@.len() && b@.subrange(
                o2,
                o2 + 8 + encode_utf8(bv.from_club).len(),
            ) == enc_str(bv.from_club));
            assert(from_club matches Some(s) && s@ == bv.from_club && o3 == o2 + f3.len());
            lemma_subrange_split(b@, o3, n, f4, r5);
            assert(o3 + 8 + encode_utf8(bv.to_club).len() <= b@.len() && b@.subrange(
                o3,
                o3 + 8 + encode_utf8(bv.to_club).len(),
            ) == enc_str(bv.to_club));
            assert(to_club matches Some(s) && s@ == bv.to_club && o4 == o3 + f4.len());
            lemma_subrange_split(b@, o4, n, f5, r6);
            match bid_amount {
                Some(x) => lemma_u64_le_injective(x, bv.bid_amount),
                None => {},
            }
            assert(bid_amount == Some(bv.bid_amount) && o5 == o4 + 8);
            lemma_subrange_split(b@, o5, n, f6, f7);
            match status_c {
                Some(x) => lemma_u64_le_injective(x, bid_status_code(bv.bid_status)),
                None => {},
            }
            assert(status_c == Some(bid_status_code(bv.bid_status)) && o6 == o5 + 8);
            assert(b@.subrange(o6, n) =~= u64_le(bv.created_at));
            match created_at {
                Some(x) => lemma_u64_le_injective(x, bv.created_at),
                None => {},
            }
            assert(created_at == Some(bv.created_at));
            assert(r matches Some(v) && v@ == bv);
        }
    }
    r
}

} // verus!
