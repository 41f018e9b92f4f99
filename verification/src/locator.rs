//! The device locator: which attached device is the wanted one.
//!
//! The caller enumerates the attached devices and hands over what reading each
//! device descriptor gave. The locator picks the candidates in order; opening
//! one is the caller's business, passed in as a function.

use vstd::prelude::*;
use crate::descriptor::DeviceIdentity;
use crate::error::SessionError;
use crate::protocol::{added, extends, lemma_added_nothing, lemma_added_push};
use crate::transport::Recorded;

verus! {

/// Whether `i` is the first device at or after `from` that matches `wanted`.
pub open spec fn is_first_match(
    devices: Seq<Option<DeviceIdentity>>,
    wanted: DeviceIdentity,
    from: int,
    i: int,
) -> bool {
    &&& 0 <= from <= i < devices.len()
    &&& wanted.matches(devices[i])
    &&& forall|j: int| from <= j < i ==> !wanted.matches(#[trigger] devices[j])
}

/// Whether no device at or after `from` matches `wanted`.
pub open spec fn no_match(
    devices: Seq<Option<DeviceIdentity>>,
    wanted: DeviceIdentity,
    from: int,
) -> bool {
    forall|j: int| 0 <= from <= j < devices.len() ==> !wanted.matches(#[trigger] devices[j])
}

/// Finds the first device at or after position `from` whose descriptor could
/// be read and carries the given vendor and product identifier.
///
/// Entry `i` of `devices` is the identity that device `i` reported, or `None`
/// where its descriptor could not be read; such a device is passed over.
/// Where no device matches the result is `None`: absence, not an error.
pub fn find_device(devices: &Vec<Option<DeviceIdentity>>, vid: u16, pid: u16, from: usize) -> (r:
    Option<usize>)
    ensures
        match r {
            Some(i) => is_first_match(
                devices@,
                DeviceIdentity { vendor_id: vid, product_id: pid },
                from as int,
                i as int,
            ),
            None => no_match(
                devices@,
                DeviceIdentity { vendor_id: vid, product_id: pid },
                from as int,
            ),
        },
{
    let wanted = DeviceIdentity { vendor_id: vid, product_id: pid };
    let mut i: usize = from;
    while i < devices.len()
        invariant
            from <= i,
            wanted == (DeviceIdentity { vendor_id: vid, product_id: pid }),
            forall|j: int| from <= j < i && j < devices.len() ==> !wanted.matches(
                #[trigger] devices@[j],
            ),
        decreases devices.len() - i,
    {
        if wanted.is_match(&devices[i]) {
            return Some(i);
        }
        i = i + 1;
    }
    None
}

/// The positions below `end` of the devices that match `wanted`, ascending.
pub open spec fn matches_before(
    devices: Seq<Option<DeviceIdentity>>,
    wanted: DeviceIdentity,
    end: int,
) -> Seq<usize>
    decreases end,
{
    if end <= 0 {
        Seq::empty()
    } else {
        let rest = matches_before(devices, wanted, end - 1);
        if end - 1 < devices.len() && wanted.matches(devices[end - 1]) {
            rest.push((end - 1) as usize)
        } else {
            rest
        }
    }
}

/// The positions that a search which ended with `found` has to try: the
/// matching devices up to the one that was found, or all of them where none
/// was found; each once, in ascending order.
pub open spec fn to_try(
    devices: Seq<Option<DeviceIdentity>>,
    wanted: DeviceIdentity,
    found: Option<usize>,
) -> Seq<usize> {
    match found {
        Some(i) => matches_before(devices, wanted, i + 1),
        None => matches_before(devices, wanted, devices.len() as int),
    }
}

/// Whether `calls` are the calls of `open` that a search which tried
/// `positions` and ended with `found` has made: one call for each position, in
/// order; the last one gave the handle that was found, every other gave none.
pub open spec fn opened<H>(
    calls: Seq<(usize, Option<H>)>,
    positions: Seq<usize>,
    found: Option<(usize, H)>,
) -> bool {
    &&& calls.len() == positions.len()
    &&& forall|k: int| 0 <= k < calls.len() ==> (#[trigger] calls[k]).0 == positions[k]
    &&& match found {
        Some((i, handle)) => calls.len() >= 1 && calls.last() == (i, Some(handle)) && forall|
            k: int,
        | 0 <= k < calls.len() - 1 ==> (#[trigger] calls[k]).1 is None,
        None => forall|k: int| 0 <= k < calls.len() ==> (#[trigger] calls[k]).1 is None,
    }
}

/// Where no device matches between two positions, the matching positions
/// below the one are those below the other.
proof fn lemma_no_match_between(
    devices: Seq<Option<DeviceIdentity>>,
    wanted: DeviceIdentity,
    from: int,
    end: int,
)
    requires
        0 <= from <= end,
        forall|j: int| from <= j < end && j < devices.len() ==> !wanted.matches(#[trigger] devices[j]),
    ensures
        matches_before(devices, wanted, end) == matches_before(devices, wanted, from),
    decreases end - from,
{
    if from < end {
        lemma_no_match_between(devices, wanted, from, end - 1);
        if end - 1 < devices.len() {
            assert(!wanted.matches(devices[end - 1]));
        }
    }
}

/// Whether a search that ended with `found` did what it had to: `found` is
/// the first matching device that `open` opened, every matching device before
/// it was tried and did not open; or, where nothing was found, every matching
/// device was tried and did not open.
pub open spec fn located<H, F: Fn(usize) -> Option<H>>(
    devices: Seq<Option<DeviceIdentity>>,
    wanted: DeviceIdentity,
    open: F,
    found: Option<(usize, H)>,
) -> bool {
    let tried_before = match found {
        Some((i, _)) => i as int,
        None => devices.len() as int,
    };
    &&& found matches Some((i, handle)) ==> i < devices.len() && wanted.matches(devices[i as int])
        && call_ensures(open, (i,), Some(handle))
    &&& forall|j: usize|
        j < tried_before && wanted.matches(#[trigger] devices[j as int]) ==> call_ensures(
            open,
            (j,),
            None::<H>,
        )
}

/// The position that was found, without the handle.
pub open spec fn position_of<H>(found: Option<(usize, H)>) -> Option<usize> {
    match found {
        Some((i, _)) => Some(i),
        None => None,
    }
}

/// Opens the first device with the given vendor and product identifier that
/// can be opened.
///
/// The devices are tried in order. A device whose descriptor could not be
/// read, or whose identifiers differ, is not opened. One that matches and does
/// not open is passed over without complaint, whatever the reason. The result
/// is the position of the device with what the opener returned for it, or
/// `None` where no device matches or none of the matching ones opened; and
/// with it the positions that were tried.
///
/// The opener is called once for each position that was tried and for no
/// other: for no device that does not match, for none after the one that was
/// found, for none twice. Where nothing matches, it is not called.
pub fn open_device<H, F: Fn(usize) -> Option<H>>(
    devices: &Vec<Option<DeviceIdentity>>,
    vid: u16,
    pid: u16,
    opener: &mut Recorded<usize, Option<H>, F>,
) -> (r: (Option<(usize, H)>, Vec<usize>))
    requires
        forall|i: usize|
            i < devices.len() && (DeviceIdentity { vendor_id: vid, product_id: pid }).matches(
                devices@[i as int],
            ) ==> call_requires(old(opener).function(), (i,)),
    ensures
        final(opener).function() == old(opener).function(),
        located(
            devices@,
            DeviceIdentity { vendor_id: vid, product_id: pid },
            old(opener).function(),
            r.0,
        ),
        no_match(devices@, DeviceIdentity { vendor_id: vid, product_id: pid }, 0) ==> r.0 is None
            && r.1@.len() == 0,
        r.1@ == to_try(
            devices@,
            DeviceIdentity { vendor_id: vid, product_id: pid },
            position_of(r.0),
        ),
        extends(old(opener).calls(), final(opener).calls()),
        opened(added(old(opener).calls(), final(opener).calls()), r.1@, r.0),
{
    let ghost wanted = DeviceIdentity { vendor_id: vid, product_id: pid };
    let ghost before = opener.calls();
    let ghost open = opener.function();
    let mut tried: Vec<usize> = Vec::new();
    let mut from: usize = 0;
    proof {
        lemma_added_nothing(before);
    }
    while from < devices.len()
        invariant
            from <= devices.len(),
            wanted == (DeviceIdentity { vendor_id: vid, product_id: pid }),
            opener.function() == open,
            open == old(opener).function(),
            before == old(opener).calls(),
            forall|i: usize|
                i < devices.len() && wanted.matches(devices@[i as int]) ==> call_requires(
                    open,
                    (i,),
                ),
            forall|j: usize|
                j < from && wanted.matches(#[trigger] devices@[j as int]) ==> call_ensures(
                    open,
                    (j,),
                    None::<H>,
                ),
            tried@ == matches_before(devices@, wanted, from as int),
            extends(before, opener.calls()),
            opened(added(before, opener.calls()), tried@, None::<(usize, H)>),
        decreases devices.len() - from,
    {
        match find_device(devices, vid, pid, from) {
            None => {
                proof {
                    lemma_no_match_between(devices@, wanted, from as int, devices.len() as int);
                    if no_match(devices@, wanted, 0) {
                        lemma_no_match_between(devices@, wanted, 0, devices.len() as int);
                    }
                }
                return (None, tried);
            },
            Some(i) => {
                proof {
                    lemma_no_match_between(devices@, wanted, from as int, i as int);
                }
                let ghost log = opener.calls();
                let ghost positions = tried@;
                tried.push(i);
                let handle = opener.call(i);
                proof {
                    lemma_added_push(before, log, (i, handle));
                    let calls = added(before, opener.calls());
                    assert forall|k: int| 0 <= k < calls.len() implies (#[trigger] calls[k]).0
                        == tried@[k] by {
                        if k < positions.len() {
                            assert(calls[k] == added(before, log)[k]);
                        }
                    }
                    assert forall|k: int| 0 <= k < calls.len() - 1 implies (
                    #[trigger] calls[k]).1 is None by {
                        assert(calls[k] == added(before, log)[k]);
                    }
                }
                match handle {
                    Some(handle) => {
                        return (Some((i, handle)), tried);
                    },
                    None => {
                        from = i + 1;
                    },
                }
            },
        }
    }
    proof {
        if no_match(devices@, wanted, 0) {
            lemma_no_match_between(devices@, wanted, 0, devices.len() as int);
        }
    }
    (None, tried)
}

/// Locates and opens the wanted device, as `open_device` does, and says
/// `DeviceNotFound` where that gives nothing: no device matches, or none of
/// the matching ones opened. The two are not told apart.
pub fn locate<H, F: Fn(usize) -> Option<H>>(
    devices: &Vec<Option<DeviceIdentity>>,
    identity: DeviceIdentity,
    opener: &mut Recorded<usize, Option<H>, F>,
) -> (r: Result<(usize, H), SessionError>)
    requires
        forall|i: usize|
            i < devices.len() && identity.matches(devices@[i as int]) ==> call_requires(
                old(opener).function(),
                (i,),
            ),
    ensures
        final(opener).function() == old(opener).function(),
        extends(old(opener).calls(), final(opener).calls()),
        match r {
            Ok(found) => located(devices@, identity, old(opener).function(), Some(found))
                && opened(
                added(old(opener).calls(), final(opener).calls()),
                to_try(devices@, identity, Some(found.0)),
                Some(found),
            ),
            Err(e) => e == SessionError::DeviceNotFound && located(
                devices@,
                identity,
                old(opener).function(),
                None::<(usize, H)>,
            ) && opened(
                added(old(opener).calls(), final(opener).calls()),
                to_try(devices@, identity, None),
                None::<(usize, H)>,
            ),
        },
        no_match(devices@, identity, 0) ==> r is Err && final(opener).calls() == old(
            opener,
        ).calls(),
{
    let ghost before = opener.calls();
    let (found, tried) = open_device(devices, identity.vendor_id, identity.product_id, opener);
    proof {
        if tried@.len() == 0 {
            assert(added(before, opener.calls()) =~= Seq::<(usize, Option<H>)>::empty());
            assert(opener.calls() =~= before + added(before, opener.calls()));
        }
    }
    match found {
        Some(found) => Ok(found),
        None => Err(SessionError::DeviceNotFound),
    }
}

} // verus!
