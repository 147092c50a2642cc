//! Which network interfaces a capture listens on.
use vstd::prelude::*;

verus! {

/// What interface selection reads of a network interface: its name and
/// whether it has any address.
#[derive(Debug)]
pub struct DeviceInfo {
    pub name: String,
    pub has_addresses: bool,
}

/// The text that `str::to_lowercase` makes of a text.
pub uninterp spec fn lowercase(s: Seq<char>) -> Seq<char>;

/// Calls `str::to_lowercase`.  Claimed: the result is `lowercase` of the
/// text, a function of the text alone.
#[verifier::external_body]
fn to_lowercase(s: &str) -> (r: String)
    ensures
        r@ == lowercase(s@),
{
    s.to_lowercase()
}

/// Whether a name is one of the loopback interface names `lo` and `lo0`.
pub open spec fn is_loopback_name(name: Seq<char>) -> bool {
    name == seq!['l', 'o'] || name == seq!['l', 'o', '0']
}

/// Whether an interface is worth capturing on: its lower-cased name is no
/// loopback name, and it has an address.
pub open spec fn is_physical(d: DeviceInfo) -> bool {
    !is_loopback_name(lowercase(d.name@)) && d.has_addresses
}

/// The indices below `n` of the interfaces worth capturing on, in order.
pub open spec fn physical_indices(devices: Seq<DeviceInfo>, n: int) -> Seq<usize>
    decreases n,
{
    if n <= 0 {
        Seq::empty()
    } else if is_physical(devices[n - 1]) {
        physical_indices(devices, n - 1).push((n - 1) as usize)
    } else {
        physical_indices(devices, n - 1)
    }
}

/// Whether an interface is no loopback, by its exact name.
pub open spec fn not_loopback(d: DeviceInfo) -> bool {
    !is_loopback_name(d.name@)
}

/// Whether an interface is no loopback, by its exact name, and has an address.
pub open spec fn active(d: DeviceInfo) -> bool {
    not_loopback(d) && d.has_addresses
}

/// The first index below `n` of an active interface, if any.
pub open spec fn first_active(devices: Seq<DeviceInfo>, n: int) -> Option<usize>
    decreases n,
{
    if n <= 0 {
        None
    } else {
        match first_active(devices, n - 1) {
            Some(i) => Some(i),
            None => if active(devices[n - 1]) {
                Some((n - 1) as usize)
            } else {
                None
            },
        }
    }
}

/// The first index below `n` of an interface that is no loopback, if any.
pub open spec fn first_not_loopback(devices: Seq<DeviceInfo>, n: int) -> Option<usize>
    decreases n,
{
    if n <= 0 {
        None
    } else {
        match first_not_loopback(devices, n - 1) {
            Some(i) => Some(i),
            None => if not_loopback(devices[n - 1]) {
                Some((n - 1) as usize)
            } else {
                None
            },
        }
    }
}

proof fn lemma_first_active_stays(devices: Seq<DeviceInfo>, k: int, n: int)
    requires
        0 <= k <= n,
        first_active(devices, k) is Some,
    ensures
        first_active(devices, n) == first_active(devices, k),
    decreases n - k,
{
    if n > k {
        lemma_first_active_stays(devices, k, n - 1);
    }
}

proof fn lemma_first_not_loopback_stays(devices: Seq<DeviceInfo>, k: int, n: int)
    requires
        0 <= k <= n,
        first_not_loopback(devices, k) is Some,
    ensures
        first_not_loopback(devices, n) == first_not_loopback(devices, k),
    decreases n - k,
{
    if n > k {
        lemma_first_not_loopback_stays(devices, k, n - 1);
    }
}

/// Whether a text is a loopback interface name.
fn is_loopback(name: &String) -> (r: bool)
    ensures
        r == is_loopback_name(name@),
{
    let lo = "lo".to_owned();
    let lo0 = "lo0".to_owned();
    proof {
        reveal_strlit("lo");
        reveal_strlit("lo0");
        assert(lo@ =~= seq!['l', 'o']);
        assert(lo0@ =~= seq!['l', 'o', '0']);
    }
    *name == lo || *name == lo0
}

/// The indices of the interfaces worth capturing on, in order.
pub fn find_physical_devices(devices: &Vec<DeviceInfo>) -> (r: Vec<usize>)
    ensures
        r@ == physical_indices(devices@, devices@.len() as int),
{
    let mut out: Vec<usize> = Vec::new();
    let mut i: usize = 0;
    while i < devices.len()
        invariant
            i <= devices@.len(),
            out@ == physical_indices(devices@, i as int),
        decreases devices@.len() - i,
    {
        let lower = to_lowercase(devices[i].name.as_str());
        if !is_loopback(&lower) && devices[i].has_addresses {
            out.push(i);
        }
        i = i + 1;
    }
    out
}

/// The first interface that is no loopback, by its exact name, and has an
/// address.
pub fn first_active_device(devices: &Vec<DeviceInfo>) -> (r: Option<usize>)
    ensures
        r == first_active(devices@, devices@.len() as int),
{
    let mut i: usize = 0;
    while i < devices.len()
        invariant
            i <= devices@.len(),
            first_active(devices@, i as int) is None,
        decreases devices@.len() - i,
    {
        if !is_loopback(&devices[i].name) && devices[i].has_addresses {
            proof { lemma_first_active_stays(devices@, i + 1, devices@.len() as int); }
            return Some(i);
        }
        i = i + 1;
    }
    None
}

/// The first interface that is no loopback, by its exact name.
pub fn first_non_loopback_device(devices: &Vec<DeviceInfo>) -> (r: Option<usize>)
    ensures
        r == first_not_loopback(devices@, devices@.len() as int),
{
    let mut i: usize = 0;
    while i < devices.len()
        invariant
            i <= devices@.len(),
            first_not_loopback(devices@, i as int) is None,
        decreases devices@.len() - i,
    {
        if !is_loopback(&devices[i].name) {
            proof { lemma_first_not_loopback_stays(devices@, i + 1, devices@.len() as int); }
            return Some(i);
        }
        i = i + 1;
    }
    None
}

/// The interfaces chosen for capture are exactly those worth capturing on,
/// each once, in order.
pub proof fn lemma_physical_indices_exact(devices: Seq<DeviceInfo>, n: int)
    requires
        0 <= n <= devices.len(),
        devices.len() <= usize::MAX,
    ensures
        forall|a: int, b: int|
            0 <= a < b < physical_indices(devices, n).len() ==> #[trigger] physical_indices(devices, n)[a]
                < #[trigger] physical_indices(devices, n)[b],
        forall|a: int|
            0 <= a < physical_indices(devices, n).len() ==> #[trigger] physical_indices(devices, n)[a] < n
                && is_physical(devices[physical_indices(devices, n)[a] as int]),
        forall|i: int|
            0 <= i < n && #[trigger] is_physical(devices[i]) ==> physical_indices(devices, n).contains(i as usize),
    decreases n,
{
    if n > 0 {
        lemma_physical_indices_exact(devices, n - 1);
        let prev = physical_indices(devices, n - 1);
        if is_physical(devices[n - 1]) {
            let cur = prev.push((n - 1) as usize);
            assert forall|i: int| 0 <= i < n && #[trigger] is_physical(devices[i]) implies cur.contains(
                i as usize,
            ) by {
                if i < n - 1 {
                    let a = choose|a: int| 0 <= a < prev.len() && prev[a] == i as usize;
                    assert(cur[a] == i as usize);
                } else {
                    assert(cur[prev.len() as int] == i as usize);
                }
            }
        }
    }
}

/// The first active interface: it is active, and none before it is; when
/// there is none, no interface is active.
pub proof fn lemma_first_active_is_first(devices: Seq<DeviceInfo>, n: int)
    requires
        0 <= n <= devices.len(),
        devices.len() <= usize::MAX,
    ensures
        first_active(devices, n) matches Some(i) ==> i < n && active(devices[i as int]) && forall|j: int|
            0 <= j < i ==> !active(#[trigger] devices[j]),
        first_active(devices, n) is None ==> forall|j: int| 0 <= j < n ==> !active(#[trigger] devices[j]),
        first_not_loopback(devices, n) matches Some(i) ==> i < n && not_loopback(devices[i as int])
            && forall|j: int| 0 <= j < i ==> !not_loopback(#[trigger] devices[j]),
        first_not_loopback(devices, n) is None ==> forall|j: int|
            0 <= j < n ==> !not_loopback(#[trigger] devices[j]),
    decreases n,
{
    if n > 0 {
        lemma_first_active_is_first(devices, n - 1);
    }
}

} // verus!
