//! Recognizing a CDC-ACM device from its interfaces, and choosing the bulk
//! endpoints of its data interface.

use vstd::prelude::*;
use crate::cdc::{USB_INTR_CLASS_CDC_DATA, USB_INTR_CLASS_COMM, USB_INTR_SUBCLASS_ACM};
use crate::error::{Error, ErrorKind};

verus! {

/// What the driver reads of an interface of the active configuration.
#[derive(Clone, Copy, Debug, PartialEq, Eq, Structural)]
pub struct InterfaceSummary {
    pub interface_number: u8,
    pub class: u8,
    pub subclass: u8,
}

/// Direction of an endpoint, seen from the host.
#[derive(Clone, Copy, Debug, PartialEq, Eq, Structural)]
pub enum EndpointDirection {
    In,
    Out,
}

/// What the driver reads of an endpoint of an alternate setting.
#[derive(Clone, Copy, Debug, PartialEq, Eq, Structural)]
pub struct EndpointSummary {
    pub address: u8,
    pub direction: EndpointDirection,
}

/// A Communication Interface of the Abstract Control Model.
pub open spec fn is_comm_acm(i: InterfaceSummary) -> bool {
    i.class == USB_INTR_CLASS_COMM && i.subclass == USB_INTR_SUBCLASS_ACM
}

/// A CDC Data Interface.
pub open spec fn is_cdc_data(i: InterfaceSummary) -> bool {
    i.class == USB_INTR_CLASS_CDC_DATA
}

/// The first ACM communication interface.
pub open spec fn first_comm(s: Seq<InterfaceSummary>) -> Option<InterfaceSummary>
    decreases s.len(),
{
    if s.len() == 0 {
        None
    } else if is_comm_acm(s[0]) {
        Some(s[0])
    } else {
        first_comm(s.drop_first())
    }
}

/// The first CDC data interface.
pub open spec fn first_data(s: Seq<InterfaceSummary>) -> Option<InterfaceSummary>
    decreases s.len(),
{
    if s.len() == 0 {
        None
    } else if is_cdc_data(s[0]) {
        Some(s[0])
    } else {
        first_data(s.drop_first())
    }
}

/// The (communication, data) interfaces of a CDC-ACM device, or `None` if
/// the device lacks either.
pub open spec fn cdc_interfaces(s: Seq<InterfaceSummary>) -> Option<(InterfaceSummary, InterfaceSummary)> {
    match (first_comm(s), first_data(s)) {
        (Some(c), Some(d)) => Some((c, d)),
        _ => None,
    }
}

fn find_comm(interfaces: &Vec<InterfaceSummary>) -> (r: Option<InterfaceSummary>)
    ensures
        r == first_comm(interfaces@),
{
    let mut i: usize = 0;
    assert(interfaces@.skip(0) =~= interfaces@);
    while i < interfaces.len()
        invariant
            i <= interfaces.len(),
            first_comm(interfaces@) == first_comm(interfaces@.skip(i as int)),
        decreases interfaces.len() - i,
    {
        let it = interfaces[i];
        assert(interfaces@.skip(i as int)[0] == it);
        assert(interfaces@.skip(i as int).drop_first() =~= interfaces@.skip(i + 1));
        if it.class == USB_INTR_CLASS_COMM && it.subclass == USB_INTR_SUBCLASS_ACM {
            return Some(it);
        }
        i = i + 1;
    }
    assert(interfaces@.skip(i as int) =~= Seq::<InterfaceSummary>::empty());
    None
}

fn find_data(interfaces: &Vec<InterfaceSummary>) -> (r: Option<InterfaceSummary>)
    ensures
        r == first_data(interfaces@),
{
    let mut i: usize = 0;
    assert(interfaces@.skip(0) =~= interfaces@);
    while i < interfaces.len()
        invariant
            i <= interfaces.len(),
            first_data(interfaces@) == first_data(interfaces@.skip(i as int)),
        decreases interfaces.len() - i,
    {
        let it = interfaces[i];
        assert(interfaces@.skip(i as int)[0] == it);
        assert(interfaces@.skip(i as int).drop_first() =~= interfaces@.skip(i + 1));
        if it.class == USB_INTR_CLASS_CDC_DATA {
            return Some(it);
        }
        i = i + 1;
    }
    assert(interfaces@.skip(i as int) =~= Seq::<InterfaceSummary>::empty());
    None
}

/// Returns (comm, data) interfaces if it is a CDC-ACM device: the first ACM
/// communication interface and the first CDC data interface.
pub fn find_interfaces(interfaces: &Vec<InterfaceSummary>) -> (r: Option<
    (InterfaceSummary, InterfaceSummary),
>)
    ensures
        r == cdc_interfaces(interfaces@),
        r is Some <==> is_cdc_device(interfaces@),
        r matches Some((c, d)) ==> is_first_comm(interfaces@, c) && is_first_data(interfaces@, d),
{
    proof {
        lemma_cdc_recognition(interfaces@);
    }
    match (find_comm(interfaces), find_data(interfaces)) {
        (Some(c), Some(d)) => Some((c, d)),
        _ => None,
    }
}

/// The interfaces to claim when connecting: an `InvalidInput` error
/// "Not a CDC-ACM device" for a device that is not one.
pub fn connect_interfaces(interfaces: &Vec<InterfaceSummary>) -> (r: Result<
    (InterfaceSummary, InterfaceSummary),
    Error,
>)
    ensures
        match cdc_interfaces(interfaces@) {
            Some(p) => r matches Ok(q) && q == p,
            None => r matches Err(e) && e.kind == ErrorKind::InvalidInput && (e.message matches Some(
                m,
            ) && m@ == "Not a CDC-ACM device"@),
        },
{
    match find_interfaces(interfaces) {
        Some(p) => Ok(p),
        None => {
            let msg = "Not a CDC-ACM device";
            Err(Error { kind: ErrorKind::InvalidInput, message: Some(String::from_str(msg)) })
        },
    }
}

/// Indices of the CDC-ACM devices among `devices`, each given by its interfaces, in order.
pub open spec fn cdc_device_indices(devices: Seq<Seq<InterfaceSummary>>) -> Seq<usize>
    decreases devices.len(),
{
    if devices.len() == 0 {
        Seq::empty()
    } else {
        let rest = cdc_device_indices(devices.drop_last());
        if cdc_interfaces(devices.last()) is Some {
            rest.push((devices.len() - 1) as usize)
        } else {
            rest
        }
    }
}

/// Which of the listed devices are CDC-ACM devices (probing).
pub fn probe(devices: &Vec<Vec<InterfaceSummary>>) -> (r: Vec<usize>)
    ensures
        r@ == cdc_device_indices(devices@.map_values(|d: Vec<InterfaceSummary>| d@)),
        forall|i: int|
            0 <= i < devices.len() ==> (r@.contains(i as usize) <==> is_cdc_device(
                #[trigger] devices@[i]@,
            )),
        forall|j: int| 0 <= j < r.len() ==> #[trigger] r@[j] < devices.len(),
{
    let ghost all = devices@.map_values(|d: Vec<InterfaceSummary>| d@);
    let mut r: Vec<usize> = Vec::new();
    let mut i: usize = 0;
    while i < devices.len()
        invariant
            i <= devices.len(),
            all == devices@.map_values(|d: Vec<InterfaceSummary>| d@),
            r@ == cdc_device_indices(all.take(i as int)),
        decreases devices.len() - i,
    {
        let found = find_interfaces(&devices[i]);
        assert(all.take(i + 1).drop_last() =~= all.take(i as int));
        assert(all.take(i + 1).last() == devices@[i as int]@);
        if found.is_some() {
            r.push(i);
        }
        i = i + 1;
    }
    assert(all.take(devices.len() as int) =~= all);
    proof {
        lemma_probe_lists_cdc_devices(all);
        assert forall|i: int| 0 <= i < devices.len() implies all[i] == #[trigger] devices@[i]@ by {}
    }
    r
}

/// The bulk IN endpoint address of the first IN endpoint.
pub open spec fn first_in(e: Seq<EndpointSummary>) -> Option<u8>
    decreases e.len(),
{
    if e.len() == 0 {
        None
    } else if e[0].direction == EndpointDirection::In {
        Some(e[0].address)
    } else {
        first_in(e.drop_first())
    }
}

/// The address of the first OUT endpoint.
pub open spec fn first_out(e: Seq<EndpointSummary>) -> Option<u8>
    decreases e.len(),
{
    if e.len() == 0 {
        None
    } else if e[0].direction == EndpointDirection::Out {
        Some(e[0].address)
    } else {
        first_out(e.drop_first())
    }
}

/// The (read, write) endpoints of the first alternate setting that has both
/// an IN and an OUT endpoint.
pub open spec fn first_endpoint_pair(alts: Seq<Seq<EndpointSummary>>) -> Option<(u8, u8)>
    decreases alts.len(),
{
    if alts.len() == 0 {
        None
    } else {
        match (first_in(alts[0]), first_out(alts[0])) {
            (Some(r), Some(w)) => Some((r, w)),
            _ => first_endpoint_pair(alts.drop_first()),
        }
    }
}

fn find_endpoint(e: &Vec<EndpointSummary>, dir: EndpointDirection) -> (r: Option<u8>)
    ensures
        dir == EndpointDirection::In ==> r == first_in(e@),
        dir == EndpointDirection::Out ==> r == first_out(e@),
{
    let mut i: usize = 0;
    assert(e@.skip(0) =~= e@);
    while i < e.len()
        invariant
            i <= e.len(),
            dir == EndpointDirection::In ==> first_in(e@) == first_in(e@.skip(i as int)),
            dir == EndpointDirection::Out ==> first_out(e@) == first_out(e@.skip(i as int)),
        decreases e.len() - i,
    {
        let it = e[i];
        assert(e@.skip(i as int)[0] == it);
        assert(e@.skip(i as int).drop_first() =~= e@.skip(i + 1));
        if it.direction == dir {
            return Some(it.address);
        }
        i = i + 1;
    }
    assert(e@.skip(i as int) =~= Seq::<EndpointSummary>::empty());
    None
}

/// The (read, write) bulk endpoint addresses of the data interface, from its
/// alternate settings in order: an `AddrNotAvailable` error if no setting has both.
pub fn select_endpoints(alts: &Vec<Vec<EndpointSummary>>) -> (r: Result<(u8, u8), Error>)
    ensures
        match first_endpoint_pair(alts@.map_values(|a: Vec<EndpointSummary>| a@)) {
            Some(p) => r matches Ok(q) && q == p,
            None => r matches Err(e) && e.kind == ErrorKind::AddrNotAvailable && e.message is None,
        },
        r is Ok <==> exists|k: int| 0 <= k < alts.len() && is_complete_setting(#[trigger] alts@[k]@),
        alts.len() > 0 && is_complete_setting(alts@[0]@) ==> (r matches Ok((rd, wr))
            && is_first_address(alts@[0]@, EndpointDirection::In, rd) && is_first_address(
            alts@[0]@,
            EndpointDirection::Out,
            wr,
        )),
{
    let ghost all = alts@.map_values(|a: Vec<EndpointSummary>| a@);
    proof {
        lemma_endpoint_choice(all);
        assert forall|k: int| 0 <= k < alts.len() implies all[k] == #[trigger] alts@[k]@ by {}
        if alts.len() > 0 {
            lemma_first_in(all[0]);
            lemma_first_out(all[0]);
        }
    }
    let mut i: usize = 0;
    assert(all.skip(0) =~= all);
    while i < alts.len()
        invariant
            i <= alts.len(),
            all == alts@.map_values(|a: Vec<EndpointSummary>| a@),
            first_endpoint_pair(all) == first_endpoint_pair(all.skip(i as int)),
            first_endpoint_pair(all) is Some <==> exists|k: int|
                0 <= k < alts.len() && is_complete_setting(#[trigger] alts@[k]@),
            alts.len() > 0 && is_complete_setting(alts@[0]@) ==> (first_endpoint_pair(
                all,
            ) matches Some((rd, wr)) && is_first_address(alts@[0]@, EndpointDirection::In, rd)
                && is_first_address(alts@[0]@, EndpointDirection::Out, wr)),
        decreases alts.len() - i,
    {
        let endp_r = find_endpoint(&alts[i], EndpointDirection::In);
        let endp_w = find_endpoint(&alts[i], EndpointDirection::Out);
        assert(all.skip(i as int)[0] == alts@[i as int]@);
        assert(all.skip(i as int).drop_first() =~= all.skip(i + 1));
        if let (Some(r), Some(w)) = (endp_r, endp_w) {
            return Ok((r, w));
        }
        i = i + 1;
    }
    assert(all.skip(i as int) =~= Seq::<Seq<EndpointSummary>>::empty());
    Err(Error { kind: ErrorKind::AddrNotAvailable, message: None })
}


/// The endpoints `e` hold one of direction `d`.
pub open spec fn has_direction(e: Seq<EndpointSummary>, d: EndpointDirection) -> bool {
    exists|j: int| 0 <= j < e.len() && e[j].direction == d
}

/// `a` is the address of the first endpoint of direction `d` in `e`.
pub open spec fn is_first_address(e: Seq<EndpointSummary>, d: EndpointDirection, a: u8) -> bool {
    exists|j: int|
        0 <= j < e.len() && e[j].direction == d && e[j].address == a && forall|k: int|
            0 <= k < j ==> e[k].direction != d
}

/// An alternate setting with both a bulk IN and a bulk OUT endpoint.
pub open spec fn is_complete_setting(e: Seq<EndpointSummary>) -> bool {
    has_direction(e, EndpointDirection::In) && has_direction(e, EndpointDirection::Out)
}

proof fn lemma_first_in(e: Seq<EndpointSummary>)
    ensures
        first_in(e) is None <==> !has_direction(e, EndpointDirection::In),
        first_in(e) matches Some(a) ==> is_first_address(e, EndpointDirection::In, a),
    decreases e.len(),
{
    if e.len() > 0 {
        lemma_first_in(e.drop_first());
        let t = e.drop_first();
        if e[0].direction == EndpointDirection::In {
            assert(is_first_address(e, EndpointDirection::In, e[0].address));
        } else {
            if has_direction(e, EndpointDirection::In) {
                let j = choose|j: int| 0 <= j < e.len() && e[j].direction == EndpointDirection::In;
                assert(t[j - 1] == e[j]);
            }
            if has_direction(t, EndpointDirection::In) {
                let j = choose|j: int| 0 <= j < t.len() && t[j].direction == EndpointDirection::In;
                assert(e[j + 1] == t[j]);
            }
            if let Some(a) = first_in(t) {
                let j = choose|j: int|
                    0 <= j < t.len() && t[j].direction == EndpointDirection::In && t[j].address == a
                        && forall|k: int| 0 <= k < j ==> t[k].direction != EndpointDirection::In;
                assert(e[j + 1] == t[j]);
                assert forall|k: int| 0 <= k < j + 1 implies e[k].direction
                    != EndpointDirection::In by {
                    if k > 0 {
                        assert(e[k] == t[k - 1]);
                    }
                }
            }
        }
    }
}

proof fn lemma_first_out(e: Seq<EndpointSummary>)
    ensures
        first_out(e) is None <==> !has_direction(e, EndpointDirection::Out),
        first_out(e) matches Some(a) ==> is_first_address(e, EndpointDirection::Out, a),
    decreases e.len(),
{
    if e.len() > 0 {
        lemma_first_out(e.drop_first());
        let t = e.drop_first();
        if e[0].direction == EndpointDirection::Out {
            assert(is_first_address(e, EndpointDirection::Out, e[0].address));
        } else {
            if has_direction(e, EndpointDirection::Out) {
                let j = choose|j: int| 0 <= j < e.len() && e[j].direction == EndpointDirection::Out;
                assert(t[j - 1] == e[j]);
            }
            if has_direction(t, EndpointDirection::Out) {
                let j = choose|j: int| 0 <= j < t.len() && t[j].direction == EndpointDirection::Out;
                assert(e[j + 1] == t[j]);
            }
            if let Some(a) = first_out(t) {
                let j = choose|j: int|
                    0 <= j < t.len() && t[j].direction == EndpointDirection::Out && t[j].address
                        == a && forall|k: int| 0 <= k < j ==> t[k].direction != EndpointDirection::Out;
                assert(e[j + 1] == t[j]);
                assert forall|k: int| 0 <= k < j + 1 implies e[k].direction
                    != EndpointDirection::Out by {
                    if k > 0 {
                        assert(e[k] == t[k - 1]);
                    }
                }
            }
        }
    }
}

/// Choosing the endpoints: the chosen setting is the first one, counting from
/// setting 0, that has both a bulk IN and a bulk OUT endpoint, and the result
/// is the address of its first IN endpoint (read) and of its first OUT
/// endpoint (write); there is no result only when no setting has both.
pub proof fn lemma_endpoint_choice(alts: Seq<Seq<EndpointSummary>>)
    ensures
        first_endpoint_pair(alts) is None <==> forall|k: int|
            0 <= k < alts.len() ==> !is_complete_setting(#[trigger] alts[k]),
        first_endpoint_pair(alts) matches Some((r, w)) ==> exists|k: int|
            0 <= k < alts.len() && is_complete_setting(#[trigger] alts[k]) && (forall|k2: int|
                0 <= k2 < k ==> !is_complete_setting(alts[k2])) && is_first_address(
                alts[k],
                EndpointDirection::In,
                r,
            ) && is_first_address(alts[k], EndpointDirection::Out, w),
    decreases alts.len(),
{
    if alts.len() > 0 {
        let t = alts.drop_first();
        lemma_endpoint_choice(t);
        lemma_first_in(alts[0]);
        lemma_first_out(alts[0]);
        if is_complete_setting(alts[0]) {
            let (r, w) = first_endpoint_pair(alts)->0;
            assert(is_complete_setting(alts[0]));
        } else {
            assert forall|k: int| 1 <= k < alts.len() implies alts[k] == t[k - 1] by {}
            if first_endpoint_pair(t) is None {
                assert forall|k: int| 0 <= k < alts.len() implies !is_complete_setting(
                    #[trigger] alts[k],
                ) by {
                    if k > 0 {
                        assert(alts[k] == t[k - 1]);
                    }
                }
            } else {
                let (r, w) = first_endpoint_pair(t)->0;
                let k = choose|k: int|
                    0 <= k < t.len() && is_complete_setting(#[trigger] t[k]) && (forall|k2: int|
                        0 <= k2 < k ==> !is_complete_setting(t[k2])) && is_first_address(
                        t[k],
                        EndpointDirection::In,
                        r,
                    ) && is_first_address(t[k], EndpointDirection::Out, w);
                assert(alts[k + 1] == t[k]);
                assert forall|k2: int| 0 <= k2 < k + 1 implies !is_complete_setting(alts[k2]) by {
                    if k2 > 0 {
                        assert(alts[k2] == t[k2 - 1]);
                    }
                }
                assert(is_complete_setting(alts[k + 1]));
                assert(!is_complete_setting(alts[0]));
            }
        }
    }
}

/// The interfaces `s` hold an ACM communication interface.
pub open spec fn has_comm_acm(s: Seq<InterfaceSummary>) -> bool {
    exists|j: int| 0 <= j < s.len() && is_comm_acm(s[j])
}

/// The interfaces `s` hold a CDC data interface.
pub open spec fn has_cdc_data(s: Seq<InterfaceSummary>) -> bool {
    exists|j: int| 0 <= j < s.len() && is_cdc_data(s[j])
}

/// A device with both an ACM communication interface and a CDC data interface.
pub open spec fn is_cdc_device(s: Seq<InterfaceSummary>) -> bool {
    has_comm_acm(s) && has_cdc_data(s)
}

/// `c` is the first ACM communication interface of `s`.
pub open spec fn is_first_comm(s: Seq<InterfaceSummary>, c: InterfaceSummary) -> bool {
    exists|j: int|
        0 <= j < s.len() && s[j] == c && is_comm_acm(c) && forall|k: int|
            0 <= k < j ==> !is_comm_acm(#[trigger] s[k])
}

/// `d` is the first CDC data interface of `s`.
pub open spec fn is_first_data(s: Seq<InterfaceSummary>, d: InterfaceSummary) -> bool {
    exists|j: int|
        0 <= j < s.len() && s[j] == d && is_cdc_data(d) && forall|k: int|
            0 <= k < j ==> !is_cdc_data(#[trigger] s[k])
}

proof fn lemma_first_comm(s: Seq<InterfaceSummary>)
    ensures
        first_comm(s) is Some <==> has_comm_acm(s),
        first_comm(s) matches Some(c) ==> is_first_comm(s, c),
    decreases s.len(),
{
    if s.len() > 0 {
        let t = s.drop_first();
        lemma_first_comm(t);
        if is_comm_acm(s[0]) {
            assert(is_first_comm(s, s[0]));
        } else {
            if has_comm_acm(s) {
                let j = choose|j: int| 0 <= j < s.len() && is_comm_acm(s[j]);
                assert(t[j - 1] == s[j]);
            }
            if has_comm_acm(t) {
                let j = choose|j: int| 0 <= j < t.len() && is_comm_acm(t[j]);
                assert(s[j + 1] == t[j]);
            }
            if let Some(c) = first_comm(t) {
                let j = choose|j: int|
                    0 <= j < t.len() && t[j] == c && is_comm_acm(c) && forall|k: int|
                        0 <= k < j ==> !is_comm_acm(#[trigger] t[k]);
                assert(s[j + 1] == t[j]);
                assert forall|k: int| 0 <= k < j + 1 implies !is_comm_acm(#[trigger] s[k]) by {
                    if k > 0 {
                        assert(s[k] == t[k - 1]);
                    }
                }
            }
        }
    }
}

proof fn lemma_first_data(s: Seq<InterfaceSummary>)
    ensures
        first_data(s) is Some <==> has_cdc_data(s),
        first_data(s) matches Some(d) ==> is_first_data(s, d),
    decreases s.len(),
{
    if s.len() > 0 {
        let t = s.drop_first();
        lemma_first_data(t);
        if is_cdc_data(s[0]) {
            assert(is_first_data(s, s[0]));
        } else {
            if has_cdc_data(s) {
                let j = choose|j: int| 0 <= j < s.len() && is_cdc_data(s[j]);
                assert(t[j - 1] == s[j]);
            }
            if has_cdc_data(t) {
                let j = choose|j: int| 0 <= j < t.len() && is_cdc_data(t[j]);
                assert(s[j + 1] == t[j]);
            }
            if let Some(d) = first_data(t) {
                let j = choose|j: int|
                    0 <= j < t.len() && t[j] == d && is_cdc_data(d) && forall|k: int|
                        0 <= k < j ==> !is_cdc_data(#[trigger] t[k]);
                assert(s[j + 1] == t[j]);
                assert forall|k: int| 0 <= k < j + 1 implies !is_cdc_data(#[trigger] s[k]) by {
                    if k > 0 {
                        assert(s[k] == t[k - 1]);
                    }
                }
            }
        }
    }
}

/// Recognizing a device: it is found to be a CDC-ACM device exactly when it
/// has an ACM communication interface and a CDC data interface, and then the
/// interfaces found are the first of each kind.
pub proof fn lemma_cdc_recognition(s: Seq<InterfaceSummary>)
    ensures
        cdc_interfaces(s) is Some <==> is_cdc_device(s),
        cdc_interfaces(s) matches Some((c, d)) ==> is_first_comm(s, c) && is_first_data(s, d),
{
    lemma_first_comm(s);
    lemma_first_data(s);
}

/// Probing lists, in increasing order, the index of every device that has an
/// ACM communication interface and a CDC data interface (the first device
/// included), and no other index.
pub proof fn lemma_probe_lists_cdc_devices(devices: Seq<Seq<InterfaceSummary>>)
    requires
        devices.len() <= usize::MAX,
    ensures
        forall|i: int|
            0 <= i < devices.len() ==> (cdc_device_indices(devices).contains(i as usize)
                <==> is_cdc_device(#[trigger] devices[i])),
        forall|j: int|
            0 <= j < cdc_device_indices(devices).len() ==> #[trigger] cdc_device_indices(
                devices,
            )[j] < devices.len(),
        forall|j1: int, j2: int|
            0 <= j1 < j2 < cdc_device_indices(devices).len() ==> #[trigger] cdc_device_indices(
                devices,
            )[j1] < #[trigger] cdc_device_indices(devices)[j2],
    decreases devices.len(),
{
    if devices.len() > 0 {
        let p = devices.drop_last();
        let n = devices.len() - 1;
        lemma_probe_lists_cdc_devices(p);
        lemma_cdc_recognition(devices.last());
        let rest = cdc_device_indices(p);
        let all = cdc_device_indices(devices);
        assert forall|i: int| 0 <= i < n implies devices[i] == p[i] by {}
        if cdc_interfaces(devices.last()) is Some {
            assert(all == rest.push(n as usize));
            assert forall|i: int| 0 <= i < devices.len() implies (all.contains(i as usize)
                <==> is_cdc_device(#[trigger] devices[i])) by {
                if i < n {
                    if all.contains(i as usize) {
                        let j = choose|j: int| 0 <= j < all.len() && all[j] == i as usize;
                        if j < rest.len() {
                            assert(rest[j] == all[j]);
                        }
                    }
                    if rest.contains(i as usize) {
                        let j = choose|j: int| 0 <= j < rest.len() && rest[j] == i as usize;
                        assert(all[j] == rest[j]);
                    }
                } else {
                    assert(all[all.len() - 1] == n as usize);
                }
            }
        } else {
            assert(all == rest);
            assert forall|i: int| 0 <= i < devices.len() implies (all.contains(i as usize)
                <==> is_cdc_device(#[trigger] devices[i])) by {
                if i == n {
                    if all.contains(i as usize) {
                        let j = choose|j: int| 0 <= j < all.len() && all[j] == i as usize;
                        assert(rest[j] < p.len());
                    }
                }
            }
        }
    }
}

} // verus!
