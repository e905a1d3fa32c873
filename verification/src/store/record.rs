//! On-disk tick record encoding.
//!
//! Records are fixed width and little-endian. Fixed width is the whole design:
//! because every record is the same size and segments are strictly ordered by
//! time, a range query can binary-search a segment by seeking to
//! `index * RECORD_SIZE`, with no separate index file to build, keep in sync,
//! or lose to a crash.

use crate::primitives::fixed::{Price, Qty};
use crate::primitives::market::{Side, Trade};
use crate::primitives::time::Ts;
use vstd::prelude::*;

verus! {

/// Bytes per record.
///
/// 33 bytes of payload padded to 40 so records stay 8-byte aligned when a
/// segment is read into memory.
pub const RECORD_SIZE: usize = 40;

/// Value of the flag byte when the aggressor was a buyer. Any other bit means
/// the file was written by a newer format than this build understands.
pub const FLAG_AGGRESSOR_BUY: u8 = 1;

/// A record that could not be decoded.
#[derive(Debug, Clone, Copy, PartialEq, Eq, Structural)]
pub enum RecordError {
    /// The flag byte carried bits this build does not define.
    UnknownFlags(u8),
}

/// The lowest `n` bytes of `x`, least significant first.
pub open spec fn le_bytes(x: nat, n: nat) -> Seq<u8>
    decreases n,
{
    if n == 0 {
        Seq::<u8>::empty()
    } else {
        seq![(x % 256) as u8] + le_bytes(x / 256, (n - 1) as nat)
    }
}

/// The number that bytes denote, least significant first.
pub open spec fn le_value(bytes: Seq<u8>) -> nat
    decreases bytes.len(),
{
    if bytes.len() == 0 {
        0
    } else {
        (bytes[0] + 256 * le_value(bytes.drop_first())) as nat
    }
}

/// The two's complement of a 64-bit number.
pub open spec fn as_unsigned(x: int) -> nat {
    if x < 0 {
        (x + 0x1_0000_0000_0000_0000) as nat
    } else {
        x as nat
    }
}

/// The 64-bit number whose two's complement is `x`.
pub open spec fn as_signed(x: nat) -> int {
    if x >= 0x8000_0000_0000_0000 {
        x - 0x1_0000_0000_0000_0000
    } else {
        x as int
    }
}

/// A trade as it is stored.
pub open spec fn record_of(trade: Trade) -> Seq<u8> {
    le_bytes(as_unsigned(trade.ts.0 as int), 8) + le_bytes(as_unsigned(trade.price.0 as int), 8)
        + le_bytes(as_unsigned(trade.qty.0 as int), 8) + le_bytes(trade.id as nat, 8) + seq![
        if trade.aggressor is Buy {
            1u8
        } else {
            0u8
        },
        0u8,
        0u8,
        0u8,
        0u8,
        0u8,
        0u8,
        0u8,
    ]
}

/// The signed number in eight bytes of a record.
pub open spec fn signed_at(record: Seq<u8>, at: int) -> int {
    as_signed(le_value(record.subrange(at, at + 8)))
}

/// The trade that a record holds.
pub open spec fn trade_of(record: Seq<u8>) -> Result<Trade, RecordError> {
    if record[32] > 1 {
        Err(RecordError::UnknownFlags(record[32]))
    } else {
        Ok(
            Trade {
                ts: Ts(signed_at(record, 0) as i64),
                price: Price(signed_at(record, 8) as i64),
                qty: Qty(signed_at(record, 16) as i64),
                id: le_value(record.subrange(24, 32)) as u64,
                aggressor: if record[32] == 1 {
                    Side::Buy
                } else {
                    Side::Sell
                },
            },
        )
    }
}

pub proof fn lemma_le_bytes(x: nat, n: nat)
    ensures
        le_bytes(x, n).len() == n,
    decreases n,
{
    if n > 0 {
        lemma_le_bytes(x / 256, (n - 1) as nat);
    }
}

proof fn lemma_le_round_trip(x: nat, n: nat)
    requires
        x < pow256(n),
    ensures
        le_value(le_bytes(x, n)) == x,
    decreases n,
{
    if n > 0 {
        let rest = le_bytes(x / 256, (n - 1) as nat);
        lemma_le_round_trip(x / 256, (n - 1) as nat);
        assert(le_bytes(x, n).drop_first() =~= rest);
    }
}

/// 256 to the power `n`.
pub open spec fn pow256(n: nat) -> nat
    decreases n,
{
    if n == 0 {
        1
    } else {
        256 * pow256((n - 1) as nat)
    }
}

proof fn lemma_le_value_bound(bytes: Seq<u8>)
    ensures
        le_value(bytes) < pow256(bytes.len()),
    decreases bytes.len(),
{
    if bytes.len() > 0 {
        lemma_le_value_bound(bytes.drop_first());
    }
}

proof fn lemma_eight_bytes()
    ensures
        pow256(8) == 0x1_0000_0000_0000_0000,
{
    reveal_with_fuel(pow256, 9);
}

/// Write eight bytes of a record.
fn put(buf: &mut [u8; 40], at: usize, value: u64)
    requires
        at <= 32,
    ensures
        final(buf)@ == old(buf)@.subrange(0, at as int) + le_bytes(value as nat, 8) + old(
            buf,
        )@.subrange(at + 8, 40),
{
    let ghost before = buf@;
    let mut rest: u64 = value;
    let mut k: usize = 0;
    let ghost all = le_bytes(value as nat, 8);
    proof {
        lemma_le_bytes(value as nat, 8);
        assert(all.skip(0) =~= all);
        assert(buf@ =~= before.subrange(0, at as int) + all.take(0) + before.subrange(
            at as int,
            40,
        ));
    }
    while k < 8
        invariant
            k <= 8,
            at <= 32,
            all.len() == 8,
            all.skip(k as int) == le_bytes(rest as nat, (8 - k) as nat),
            buf@.len() == 40,
            before.len() == 40,
            buf@ == before.subrange(0, at as int) + all.take(k as int) + before.subrange(
                at + k,
                40,
            ),
        decreases 8 - k,
    {
        let byte: u8 = (rest % 256) as u8;
        proof {
            let here = le_bytes(rest as nat, (8 - k) as nat);
            assert(here[0] == byte);
            assert(all[k as int] == all.skip(k as int)[0]);
            assert(all.skip(k + 1) =~= all.skip(k as int).drop_first());
            assert(here.drop_first() =~= le_bytes((rest / 256) as nat, (8 - k - 1) as nat));
        }
        buf[at + k] = byte;
        rest = rest / 256;
        k += 1;
        assert(buf@ =~= before.subrange(0, at as int) + all.take(k as int) + before.subrange(
            at + k,
            40,
        ));
    }
    assert(all.take(8) =~= all);
}

/// Read eight bytes of a record.
fn get(buf: &[u8; 40], at: usize) -> (r: u64)
    requires
        at <= 32,
    ensures
        r == le_value(buf@.subrange(at as int, at + 8)),
{
    let ghost all = buf@.subrange(at as int, at + 8);
    let mut value: u64 = 0;
    let mut k: usize = 8;
    assert(all.skip(8) =~= Seq::<u8>::empty());
    proof {
        lemma_eight_bytes();
    }
    while k > 0
        invariant
            k <= 8,
            at <= 32,
            buf@.len() == 40,
            all == buf@.subrange(at as int, at + 8),
            pow256(8) == 0x1_0000_0000_0000_0000,
            value == le_value(all.skip(k as int)),
        decreases k,
    {
        let byte: u8 = buf[at + k - 1];
        proof {
            let here = all.skip(k - 1);
            assert(here[0] == byte);
            assert(here.drop_first() =~= all.skip(k as int));
            lemma_le_value_bound(here);
            lemma_pow256_grows(here.len(), 8);
        }
        value = value * 256 + byte as u64;
        k -= 1;
    }
    assert(all.skip(0) =~= all);
    value
}

proof fn lemma_pow256_grows(a: nat, b: nat)
    requires
        a <= b,
    ensures
        pow256(a) <= pow256(b),
    decreases b,
{
    if a < b {
        lemma_pow256_grows(a, (b - 1) as nat);
    }
}

fn unsigned(x: i64) -> (r: u64)
    ensures
        r == as_unsigned(x as int),
{
    if x < 0 {
        (x as i128 + 0x1_0000_0000_0000_0000) as u64
    } else {
        x as u64
    }
}

fn signed(x: u64) -> (r: i64)
    ensures
        r == as_signed(x as nat),
{
    if x >= 0x8000_0000_0000_0000 {
        (x as i128 - 0x1_0000_0000_0000_0000) as i64
    } else {
        x as i64
    }
}

/// Serialise a trade into its on-disk form.
pub fn encode(trade: &Trade) -> (r: [u8; 40])
    ensures
        r@ == record_of(*trade),
{
    let mut buf: [u8; 40] = [0u8;40];
    put(&mut buf, 0, unsigned(trade.ts.0));
    put(&mut buf, 8, unsigned(trade.price.0));
    put(&mut buf, 16, unsigned(trade.qty.0));
    put(&mut buf, 24, trade.id);
    let flag: u8 = match trade.aggressor {
        Side::Buy => FLAG_AGGRESSOR_BUY,
        Side::Sell => 0,
    };
    buf[32] = flag;
    proof {
        lemma_le_bytes(as_unsigned(trade.ts.0 as int), 8);
        lemma_le_bytes(as_unsigned(trade.price.0 as int), 8);
        lemma_le_bytes(as_unsigned(trade.qty.0 as int), 8);
        lemma_le_bytes(trade.id as nat, 8);
        assert(buf@ =~= record_of(*trade));
    }
    buf
}

/// Deserialise a trade from its on-disk form.
pub fn decode(buf: &[u8; 40]) -> (r: Result<Trade, RecordError>)
    ensures
        r == trade_of(buf@),
{
    let flags: u8 = buf[32];
    if flags > FLAG_AGGRESSOR_BUY {
        return Err(RecordError::UnknownFlags(flags));
    }
    Ok(
        Trade {
            ts: Ts(signed(get(buf, 0))),
            price: Price(signed(get(buf, 8))),
            qty: Qty(signed(get(buf, 16))),
            id: get(buf, 24),
            aggressor: if flags == FLAG_AGGRESSOR_BUY {
                Side::Buy
            } else {
                Side::Sell
            },
        },
    )
}

/// Read just the timestamp out of a record.
///
/// Binary search only needs this field.
pub fn decode_ts(buf: &[u8; 40]) -> (r: Ts)
    ensures
        r.0 == signed_at(buf@, 0),
{
    Ts(signed(get(buf, 0)))
}

/// A record reads back as the trade it was written for, and its timestamp can
/// be read on its own.
pub proof fn law_records_read_back(trade: Trade)
    ensures
        record_of(trade).len() == RECORD_SIZE,
        trade_of(record_of(trade)) == Ok::<Trade, RecordError>(trade),
        signed_at(record_of(trade), 0) == trade.ts.0,
{
    let r = record_of(trade);
    let ts = as_unsigned(trade.ts.0 as int);
    let price = as_unsigned(trade.price.0 as int);
    let qty = as_unsigned(trade.qty.0 as int);
    let id = trade.id as nat;
    lemma_eight_bytes();
    lemma_le_bytes(ts, 8);
    lemma_le_bytes(price, 8);
    lemma_le_bytes(qty, 8);
    lemma_le_bytes(id, 8);
    lemma_le_round_trip(ts, 8);
    lemma_le_round_trip(price, 8);
    lemma_le_round_trip(qty, 8);
    lemma_le_round_trip(id, 8);
    assert(r.subrange(0, 8) =~= le_bytes(ts, 8));
    assert(r.subrange(8, 16) =~= le_bytes(price, 8));
    assert(r.subrange(16, 24) =~= le_bytes(qty, 8));
    assert(r.subrange(24, 32) =~= le_bytes(id, 8));
}

/// Two different trades are stored differently.
pub proof fn law_records_tell_trades_apart(a: Trade, b: Trade)
    requires
        record_of(a) == record_of(b),
    ensures
        a == b,
{
    law_records_read_back(a);
    law_records_read_back(b);
}

} // verus!
