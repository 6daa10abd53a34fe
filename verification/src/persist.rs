//! Byte-exact serialization of the dictionary to JSON.
//!
//! The persisted dictionary is a single JSON object. Its first four members
//! are the sentinel names with ids 0 to 3; then one member per move, the
//! key the UCI text of the move (`e2e4`, `e7e8q`) and the value its id, in
//! id order.

use vstd::prelude::*;

use crate::chess::{file_of, rank_of, PieceRole, Uci};

verus! {

/// The opening of the object: the four sentinel members.
pub open spec fn json_header() -> Seq<u8> {
    seq![
        123u8, 34u8, 60u8, 115u8, 116u8, 97u8, 114u8, 116u8, 58u8, 87u8, 72u8, 73u8, 84u8, 69u8,
        62u8, 34u8, 58u8, 48u8, 44u8, 34u8, 60u8, 115u8, 116u8, 97u8, 114u8, 116u8, 58u8, 66u8,
        76u8, 65u8, 67u8, 75u8, 62u8, 34u8, 58u8, 49u8, 44u8, 34u8, 60u8, 115u8, 116u8, 97u8,
        114u8, 116u8, 58u8, 68u8, 82u8, 65u8, 87u8, 62u8, 34u8, 58u8, 50u8, 44u8, 34u8, 60u8,
        101u8, 110u8, 100u8, 62u8, 34u8, 58u8, 51u8,
    ]
}

/// Decimal digits of a nonnegative number.
pub open spec fn dec_bytes(n: int) -> Seq<u8>
    decreases n,
{
    if n < 10 {
        seq![(48 + if n >= 0 {
            n
        } else {
            0
        }) as u8]
    } else {
        dec_bytes(n / 10) + seq![(48 + n % 10) as u8]
    }
}

/// The two characters of a square: file letter, rank digit.
pub open spec fn square_bytes(s: int) -> Seq<u8> {
    seq![(97 + file_of(s)) as u8, (49 + rank_of(s)) as u8]
}

/// The lowercase letter of a promotion piece.
pub open spec fn promo_byte(p: PieceRole) -> u8 {
    match p {
        PieceRole::Bishop => 98u8,
        PieceRole::Knight => 110u8,
        PieceRole::Rook => 114u8,
        PieceRole::Queen => 113u8,
        _ => 63u8,
    }
}

/// The UCI text of a normal move: origin, destination, and promotion
/// letter if any. Null and drop moves never occur in the dictionary.
pub open spec fn uci_bytes(m: Uci) -> Seq<u8> {
    match m {
        Uci::Normal { from, to, promotion } => square_bytes(from as int) + square_bytes(to as int)
            + (match promotion {
            None => Seq::empty(),
            Some(p) => seq![promo_byte(p)],
        }),
        _ => Seq::empty(),
    }
}

/// One move member: comma, quoted UCI key, colon, decimal id.
pub open spec fn entry_bytes(e: (Uci, u16)) -> Seq<u8> {
    seq![44u8, 34u8] + uci_bytes(e.0) + seq![34u8, 58u8] + dec_bytes(e.1 as int)
}

/// All move members, in entry order.
pub open spec fn entries_bytes(es: Seq<(Uci, u16)>) -> Seq<u8>
    decreases es.len(),
{
    if es.len() == 0 {
        Seq::empty()
    } else {
        entry_bytes(es[0]) + entries_bytes(es.drop_first())
    }
}

/// The whole dictionary object.
pub open spec fn dict_json_bytes(es: Seq<(Uci, u16)>) -> Seq<u8> {
    json_header() + entries_bytes(es) + seq![125u8]
}

/// Serialization distributes over appending one entry.
pub proof fn lemma_entries_bytes_push(es: Seq<(Uci, u16)>, e: (Uci, u16))
    ensures
        entries_bytes(es.push(e)) == entries_bytes(es) + entry_bytes(e),
    decreases es.len(),
{
    if es.len() == 0 {
        assert(es.push(e).drop_first() =~= es);
        assert(entries_bytes(es.push(e)) =~= entries_bytes(es) + entry_bytes(e));
    } else {
        lemma_entries_bytes_push(es.drop_first(), e);
        assert(es.push(e).drop_first() =~= es.drop_first().push(e));
        assert(entries_bytes(es.push(e)) =~= entries_bytes(es) + entry_bytes(e));
    }
}

/// Appends the decimal digits of `n`.
pub(crate) fn push_dec(out: &mut Vec<u8>, n: u16)
    ensures
        final(out)@ == old(out)@ + dec_bytes(n as int),
    decreases n,
{
    if n < 10 {
        out.push(48 + n as u8);
        assert(out@ =~= old(out)@ + dec_bytes(n as int));
    } else {
        push_dec(out, n / 10);
        out.push(48 + (n % 10) as u8);
        assert(out@ =~= old(out)@ + dec_bytes(n as int));
    }
}

/// Appends the two characters of a square.
pub(crate) fn push_square(out: &mut Vec<u8>, s: u8)
    requires
        s < 64,
    ensures
        final(out)@ == old(out)@ + square_bytes(s as int),
{
    out.push(97 + s % 8);
    out.push(49 + s / 8);
    assert(out@ =~= old(out)@ + square_bytes(s as int));
}

/// Appends the object opening with the four sentinel members.
pub(crate) fn push_header(out: &mut Vec<u8>)
    ensures
        final(out)@ == old(out)@ + json_header(),
{
    out.push(123u8);
    out.push(34u8);
    out.push(60u8);
    out.push(115u8);
    out.push(116u8);
    out.push(97u8);
    out.push(114u8);
    out.push(116u8);
    out.push(58u8);
    out.push(87u8);
    out.push(72u8);
    out.push(73u8);
    out.push(84u8);
    out.push(69u8);
    out.push(62u8);
    out.push(34u8);
    out.push(58u8);
    out.push(48u8);
    out.push(44u8);
    out.push(34u8);
    out.push(60u8);
    out.push(115u8);
    out.push(116u8);
    out.push(97u8);
    out.push(114u8);
    out.push(116u8);
    out.push(58u8);
    out.push(66u8);
    out.push(76u8);
    out.push(65u8);
    out.push(67u8);
    out.push(75u8);
    out.push(62u8);
    out.push(34u8);
    out.push(58u8);
    out.push(49u8);
    out.push(44u8);
    out.push(34u8);
    out.push(60u8);
    out.push(115u8);
    out.push(116u8);
    out.push(97u8);
    out.push(114u8);
    out.push(116u8);
    out.push(58u8);
    out.push(68u8);
    out.push(82u8);
    out.push(65u8);
    out.push(87u8);
    out.push(62u8);
    out.push(34u8);
    out.push(58u8);
    out.push(50u8);
    out.push(44u8);
    out.push(34u8);
    out.push(60u8);
    out.push(101u8);
    out.push(110u8);
    out.push(100u8);
    out.push(62u8);
    out.push(34u8);
    out.push(58u8);
    out.push(51u8);
    assert(out@ =~= old(out)@ + json_header());
}

} // verus!
