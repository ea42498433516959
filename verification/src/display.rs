//! Small texts and numbers of a progress display.

use vstd::prelude::*;
use crate::number::{decimal, push_decimal};
use crate::text::{push_str, string_of};

verus! {

/// A duration of whole seconds as text: `42s` under a minute, `3m 7s` from
/// a minute on.
pub open spec fn duration_text(seconds: nat) -> Seq<char> {
    if seconds >= 60 {
        decimal(seconds / 60) + "m "@ + decimal(seconds % 60) + "s"@
    } else {
        decimal(seconds) + "s"@
    }
}

/// A duration of whole seconds as text.
pub fn format_duration(seconds: u64) -> (r: String)
    ensures
        r@ == duration_text(seconds as nat),
{
    let mut out: Vec<char> = Vec::new();
    if seconds >= 60 {
        push_decimal(&mut out, (seconds / 60) as u128);
        push_str(&mut out, "m ");
        push_decimal(&mut out, (seconds % 60) as u128);
    } else {
        push_decimal(&mut out, seconds as u128);
    }
    push_str(&mut out, "s");
    assert(out@ =~= duration_text(seconds as nat));
    string_of(&out)
}

/// The number shown behind a progress message: a hundred times `total`,
/// divided by `progress`. There is none where `progress` is zero or the
/// product does not fit in 64 bits.
pub open spec fn percentage_of(progress: nat, total: nat) -> Option<nat> {
    if progress == 0 || total * 100 > u64::MAX {
        None
    } else {
        Some(total * 100 / progress)
    }
}

/// The number shown behind a progress message.
pub fn progress_percentage(progress: u64, total: u64) -> (r: Option<u64>)
    ensures
        match r {
            Some(p) => percentage_of(progress as nat, total as nat) == Some(p as nat),
            None => percentage_of(progress as nat, total as nat) is None,
        },
{
    if progress == 0 || total > u64::MAX / 100 {
        None
    } else {
        Some(total * 100 / progress)
    }
}

} // verus!
