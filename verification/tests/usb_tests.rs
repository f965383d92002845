use android_usbser::usb::{
    connect_interfaces, find_interfaces, probe, select_endpoints, EndpointDirection,
    EndpointSummary, InterfaceSummary,
};
use android_usbser::ErrorKind;

fn intf(n: u8, class: u8, subclass: u8) -> InterfaceSummary {
    InterfaceSummary { interface_number: n, class, subclass }
}

fn ep(address: u8, direction: EndpointDirection) -> EndpointSummary {
    EndpointSummary { address, direction }
}

#[test]
fn finds_first_comm_and_data_interfaces() {
    let v = vec![intf(0, 0xff, 0), intf(1, 2, 2), intf(2, 0x0a, 0), intf(3, 2, 2), intf(4, 0x0a, 0)];
    assert_eq!(find_interfaces(&v), Some((intf(1, 2, 2), intf(2, 0x0a, 0))));
    let v = vec![intf(0, 0x0a, 0), intf(1, 2, 2)];
    assert_eq!(find_interfaces(&v), Some((intf(1, 2, 2), intf(0, 0x0a, 0))));
}

#[test]
fn rejects_devices_without_both_interfaces() {
    assert_eq!(find_interfaces(&vec![]), None);
    assert_eq!(find_interfaces(&vec![intf(0, 2, 2)]), None);
    assert_eq!(find_interfaces(&vec![intf(0, 2, 6), intf(1, 0x0a, 0)]), None);
    let e = connect_interfaces(&vec![intf(0, 8, 6)]).unwrap_err();
    assert_eq!(e.kind, ErrorKind::InvalidInput);
    assert_eq!(e.message.as_deref(), Some("Not a CDC-ACM device"));
}

#[test]
fn probe_keeps_cdc_devices_in_order() {
    let devs = vec![
        vec![intf(0, 8, 6)],
        vec![intf(0, 2, 2), intf(1, 0x0a, 0)],
        vec![],
        vec![intf(1, 0x0a, 0), intf(0, 2, 2), intf(2, 3, 0)],
    ];
    assert_eq!(probe(&devs), vec![1, 3]);
    assert!(probe(&vec![]).is_empty());
}

#[test]
fn endpoints_from_first_complete_setting() {
    let alts = vec![
        vec![],
        vec![ep(0x81, EndpointDirection::In)],
        vec![ep(0x02, EndpointDirection::Out), ep(0x83, EndpointDirection::In), ep(0x84, EndpointDirection::In)],
        vec![ep(0x85, EndpointDirection::In), ep(0x06, EndpointDirection::Out)],
    ];
    assert_eq!(select_endpoints(&alts).unwrap(), (0x83, 0x02));
}

#[test]
fn endpoints_missing_is_addr_not_available() {
    let alts = vec![vec![ep(0x81, EndpointDirection::In)], vec![ep(0x02, EndpointDirection::Out)]];
    let e = select_endpoints(&alts).unwrap_err();
    assert_eq!(e.kind, ErrorKind::AddrNotAvailable);
    assert!(e.message.is_none());
    assert!(select_endpoints(&vec![]).is_err());
}
