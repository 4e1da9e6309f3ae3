//! Whether a GRIB2 message carries a wind variable, decided on the
//! (parameter category, parameter number) pairs of its submessages.
use crate::framer::{be_value, declared_len, read_be};
use vstd::prelude::*;

verus! {

/// The (category, number) pair of each submessage's product definition, in
/// order, as the grib crate decodes `msg`; `None` when it cannot decode it.
pub uninterp spec fn grib_parameters(msg: Seq<u8>) -> Option<Seq<(Option<u8>, Option<u8>)>>;

/// Whether the sections from `pos` on each declare a size of at least 5
/// bytes (6 for section 6, which the decoder reads one octet into) that stays
/// inside the message. Fewer than 5 bytes left end the walk: the decoder reads
/// them as the end section, or reports a short read.
pub open spec fn sections_fit(msg: Seq<u8>, pos: nat) -> bool
    decreases msg.len() - pos,
{
    if pos > msg.len() {
        false
    } else if msg.len() - pos < 5 {
        true
    } else {
        let size = be_value(msg.subrange(pos as int, pos + 4 as int));
        let num = msg[pos + 4 as int];
        if size < 5 || (num == 6 && size < 6) || size > msg.len() - pos {
            false
        } else {
            sections_fit(msg, pos + size)
        }
    }
}

/// A message whose layout the grib decoder walks without overflowing: it
/// starts with `GRIB`, declares its own length (at least the 16 bytes of the
/// indicator section), and its sections fit as `sections_fit` says.
pub open spec fn decodable_layout(msg: Seq<u8>) -> bool {
    &&& msg.len() >= 16
    &&& msg.subrange(0, 4) == seq![0x47u8, 0x52u8, 0x49u8, 0x42u8]
    &&& declared_len(msg) == msg.len()
    &&& sections_fit(msg, 16)
}

/// Checks `decodable_layout`.
pub fn section_layout_ok(msg: &[u8]) -> (r: bool)
    ensures
        r == decodable_layout(msg@),
{
    let len = msg.len();
    if len < 16 {
        return false;
    }
    if !(msg[0] == 0x47 && msg[1] == 0x52 && msg[2] == 0x49 && msg[3] == 0x42) {
        proof {
            let w = msg@.subrange(0, 4);
            if w == seq![0x47u8, 0x52u8, 0x49u8, 0x42u8] {
                assert(w[0] == msg@[0] && w[1] == msg@[1] && w[2] == msg@[2] && w[3] == msg@[3]);
            }
        }
        return false;
    }
    assert(msg@.subrange(0, 4) =~= seq![0x47u8, 0x52u8, 0x49u8, 0x42u8]);
    let total = read_be(msg, 8, 8);
    if total != len as u64 {
        return false;
    }
    let mut pos: usize = 16;
    while len - pos >= 5
        invariant
            len == msg@.len(),
            16 <= pos <= len,
            sections_fit(msg@, 16) == sections_fit(msg@, pos as nat),
        decreases len - pos,
    {
        let size = read_be(msg, pos, 4);
        let num = msg[pos + 4];
        if size < 5 || (num == 6 && size < 6) || size > (len - pos) as u64 {
            return false;
        }
        pos = pos + size as usize;
    }
    true
}

/// Relies on `grib::from_reader`, `Grib2::iter`, `SubMessage::prod_def` and
/// `ProdDefinition::parameter_category` / `parameter_number`: the pairs that
/// the decoder reads from the message's bytes.
/// Its reader subtracts section sizes without checking them, so it is only
/// called on a message of `decodable_layout`.
#[verifier::external_body]
fn submessage_parameters(msg: &[u8]) -> (r: Option<Vec<(Option<u8>, Option<u8>)>>)
    requires
        decodable_layout(msg@),
    ensures
        match r {
            Some(v) => grib_parameters(msg@) == Some(v@),
            None => grib_parameters(msg@) is None,
        },
{
    let grib2 = grib::from_reader(std::io::Cursor::new(msg)).ok()?;
    let pairs = grib2
        .iter()
        .map(|(_, sub)| (sub.prod_def().parameter_category(), sub.prod_def().parameter_number()))
        .collect();
    Some(pairs)
}

/// Category 2 (momentum) with number 2 (U wind component) or 3 (V wind component).
pub open spec fn is_wind_pair(p: (Option<u8>, Option<u8>)) -> bool {
    p.0 == Some(2u8) && (p.1 == Some(2u8) || p.1 == Some(3u8))
}

pub open spec fn has_wind_spec(params: Seq<(Option<u8>, Option<u8>)>) -> bool {
    exists|i: int| 0 <= i < params.len() && is_wind_pair(#[trigger] params[i])
}

/// Whether one of the pairs names a wind component.
pub fn has_wind_parameter(params: &[(Option<u8>, Option<u8>)]) -> (r: bool)
    ensures
        r == has_wind_spec(params@),
{
    let mut i: usize = 0;
    while i < params.len()
        invariant
            i <= params@.len(),
            forall|j: int| 0 <= j < i ==> !is_wind_pair(#[trigger] params@[j]),
        decreases params@.len() - i,
    {
        let (cat, num) = params[i];
        let wind = match (cat, num) {
            (Some(c), Some(n)) => c == 2 && (n == 2 || n == 3),
            _ => false,
        };
        if wind {
            assert(is_wind_pair(params@[i as int]));
            return true;
        }
        i = i + 1;
    }
    false
}

/// Whether a GRIB2 message holds a wind variable (UGRD or VGRD); a message
/// whose layout is unsound, or that cannot be decoded, holds none.
pub fn is_wind_message(msg: &[u8]) -> (r: bool)
    ensures
        r == (decodable_layout(msg@) && match grib_parameters(msg@) {
            Some(ps) => has_wind_spec(ps),
            None => false,
        }),
{
    if !section_layout_ok(msg) {
        return false;
    }
    match submessage_parameters(msg) {
        Some(pairs) => has_wind_parameter(pairs.as_slice()),
        None => false,
    }
}

} // verus!
