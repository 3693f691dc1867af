use embassy_defmt_usb::buffer::Controller;
use embassy_defmt_usb::drain::{DrainAction, DrainEvent};
use embassy_defmt_usb::handler::{
    DefmtStringHandler, InResponse, OutResponse, Recipient, Request, RequestType,
};
use embassy_defmt_usb::logger::{ClassCodes, InterruptEndpoint, UsbDefmtLogger};
use embassy_time::Duration;

fn handler() -> DefmtStringHandler {
    UsbDefmtLogger::new().build(4, 2).handler
}

fn class_request(request: u8) -> Request {
    Request {
        request_type: RequestType::Class,
        recipient: Recipient::Interface,
        request,
        index: 2,
    }
}

/// The interval at which a port polls.
fn poll_interval(logger: UsbDefmtLogger) -> Duration {
    let mut c = Controller::new();
    let mut task = logger.build(1, 0).task;
    task.run(&mut c, DrainEvent::Start);
    match task.run(&mut c, DrainEvent::Enabled { max_packet_size: 64 }) {
        DrainAction::Sleep(d) => d,
        _ => panic!("nothing was logged"),
    }
}

#[test]
fn default_interval_is_ten_milliseconds() {
    assert_eq!(poll_interval(UsbDefmtLogger::new()).as_millis(), 10);
    assert_eq!(poll_interval(UsbDefmtLogger::default()).as_millis(), 10);
    assert_eq!(
        poll_interval(UsbDefmtLogger::new()).as_ticks(),
        embassy_time::TICK_HZ / 100
    );
}

#[test]
fn interval_can_be_overridden() {
    let d = Duration::from_ticks(12345);
    assert_eq!(poll_interval(UsbDefmtLogger::new().with_timeout(d)), d);
}

#[test]
fn port_is_laid_out_as_cdc_acm() {
    let codes = |class, subclass, protocol| ClassCodes {
        class,
        subclass,
        protocol,
    };
    assert_eq!(UsbDefmtLogger::function_codes(), codes(0x02, 0x02, 0x00));
    let f = UsbDefmtLogger::new().build(4, 2);
    assert_eq!(f.comm.codes, codes(0x02, 0x02, 0x01));
    assert_eq!(f.comm.string, Some(4));
    assert_eq!(f.header, [0x00, 0x10, 0x01]);
    assert_eq!(f.acm, [0x02, 0x06]);
    assert_eq!(f.union_functional, [0x06, 2, 3]);
    assert_eq!(
        f.notification,
        InterruptEndpoint {
            max_packet_size: 8,
            interval_ms: 255
        }
    );
    assert_eq!(f.data.codes, codes(0x0A, 0x00, 0x00));
    assert_eq!(f.data.string, None);
    assert_eq!(f.descriptor_type, 0x24);
    assert_eq!((f.bulk_out, f.bulk_in), (64, 64));
}

#[test]
fn last_interface_number_with_a_successor() {
    assert_eq!(
        UsbDefmtLogger::new().build(1, 254).union_functional,
        [6, 254, 255]
    );
}

#[test]
fn comm_interface_is_named_defmt() {
    let f = UsbDefmtLogger::new().build(4, 2);
    let index = f.comm.string.unwrap();
    assert_eq!(f.handler.get_string(index, 0x0409), Some("defmt"));
    assert_eq!(f.handler.get_string(index, 0), Some("defmt"));
    assert_eq!(f.handler.get_string(index + 1, 0x0409), None);
}

#[test]
fn opening_the_port_is_accepted() {
    let h = handler();
    for request in [0x20, 0x22] {
        assert_eq!(
            h.control_out(class_request(request), &[0; 7]),
            Some(OutResponse::Accepted)
        );
    }
}

#[test]
fn other_out_requests_are_left_alone() {
    let h = handler();
    for request in [0x00, 0x1F, 0x21, 0x23, 0xFF] {
        assert_eq!(h.control_out(class_request(request), &[]), None);
    }
    let foreign = [
        Request {
            request_type: RequestType::Vendor,
            ..class_request(0x20)
        },
        Request {
            recipient: Recipient::Device,
            ..class_request(0x20)
        },
        Request {
            index: 3,
            ..class_request(0x20)
        },
        Request {
            index: 0x0102,
            ..class_request(0x20)
        },
    ];
    for req in foreign {
        assert_eq!(h.control_out(req, &[]), None);
    }
}

#[test]
fn line_coding_is_9600_8n1() {
    let h = handler();
    let mut buf = [0xEE; 10];
    match h.control_in(class_request(0x21), &mut buf) {
        Some(InResponse::Accepted(data)) => {
            assert_eq!(data, &[0x80, 0x25, 0, 0, 0, 0, 8]);
            assert_eq!(u32::from_le_bytes([data[0], data[1], data[2], data[3]]), 9600);
        }
        _ => panic!("the line coding was refused"),
    }
    assert_eq!(buf, [0x80, 0x25, 0, 0, 0, 0, 8, 0xEE, 0xEE, 0xEE]);
}

#[test]
fn line_coding_is_cut_to_the_buffer() {
    let h = handler();
    let mut buf = [0xEE; 2];
    match h.control_in(class_request(0x21), &mut buf) {
        Some(InResponse::Accepted(data)) => assert_eq!(data, &[0x80, 0x25]),
        _ => panic!("the line coding was refused"),
    }
    let mut none: [u8; 0] = [];
    match h.control_in(class_request(0x21), &mut none) {
        Some(InResponse::Accepted(data)) => assert!(data.is_empty()),
        _ => panic!("the line coding was refused"),
    }
}

#[test]
fn other_in_requests_are_left_alone() {
    let h = handler();
    let mut buf = [0xEE; 7];
    for request in [0x20, 0x22, 0x00] {
        assert!(h.control_in(class_request(request), &mut buf).is_none());
    }
    let req = Request {
        recipient: Recipient::Endpoint,
        ..class_request(0x21)
    };
    assert!(h.control_in(req, &mut buf).is_none());
    let req = Request {
        index: 1,
        ..class_request(0x21)
    };
    assert!(h.control_in(req, &mut buf).is_none());
    assert_eq!(buf, [0xEE; 7]);
}
