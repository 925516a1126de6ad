use vstd::prelude::*;

use crate::layers::LayerIndex;

verus! {

/// The ASCII decimal digits of `n`, most significant first, without leading zeros.
pub open spec fn decimal(n: nat) -> Seq<u8>
    decreases n,
{
    if n < 10 {
        seq![(48 + n) as u8]
    } else {
        decimal(n / 10) + seq![(48 + n % 10) as u8]
    }
}

/// The event text for a layer change: `layer <index>:on` or `layer <index>:off`.
pub open spec fn layer_event_text(index: nat, on: bool) -> Seq<u8> {
    // "layer "
    let prefix = seq![108u8, 97u8, 121u8, 101u8, 114u8, 32u8];
    // "on" or "off"
    let state = if on {
        seq![111u8, 110u8]
    } else {
        seq![111u8, 102u8, 102u8]
    };
    // ':' between them
    prefix + decimal(index) + seq![58u8] + state
}

/// Appends the decimal digits of `n` to `out`.
pub fn push_decimal(out: &mut Vec<u8>, n: usize)
    ensures
        final(out)@ == old(out)@ + decimal(n as nat),
    decreases n,
{
    if n >= 10 {
        push_decimal(out, n / 10);
    }
    let digit: u8 = (n % 10) as u8;
    out.push(48u8 + digit);
    proof {
        if n >= 10 {
            assert(old(out)@ + decimal(n as nat) =~= old(out)@ + decimal((n / 10) as nat) + seq![
                (48 + n % 10) as u8,
            ]);
        }
    }
    assert(final(out)@ =~= old(out)@ + decimal(n as nat));
}

/// The UTF-8 text announcing that layer `index` was turned on (`on`) or off.
pub fn notification_message(index: LayerIndex, on: bool) -> (r: Vec<u8>)
    ensures
        r@ == layer_event_text(index as nat, on),
{
    let mut out: Vec<u8> = Vec::new();
    out.push(108u8);
    out.push(97u8);
    out.push(121u8);
    out.push(101u8);
    out.push(114u8);
    out.push(32u8);
    push_decimal(&mut out, index);
    out.push(58u8);
    if on {
        out.push(111u8);
        out.push(110u8);
    } else {
        out.push(111u8);
        out.push(102u8);
        out.push(102u8);
    }
    assert(out@ =~= layer_event_text(index as nat, on));
    out
}

} // verus!
