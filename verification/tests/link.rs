use procon::bytes::{push_le, read_le};
use procon::clock::{millis, millis_at, unix_ms};
use procon::device::{find_controller, is_controller, reset_timed_out, UsbIds, RESET_TIMEOUT_NS};
use procon::dump::{
    frame_dumped, stamped, stamped_at, DumpMessage, DumpQueue, DumpWorker, MessageOrder,
    QueueReport, WorkerEvent, WorkerOrder, DUMP_CHANNEL_CAPACITY,
};
use procon::dumper::{Dumper, NullDumper};
use procon::frame::{Frame, FRAME_SIZE};
use procon::gadget::{
    create_bidirectional_hid_descriptor, find_hidg_device, hidg_path, PRODUCT_ID, VENDOR_ID,
};
use procon::keystate::{GyroData, Timestamp};
use procon::motion::{imu_sums, PoseSteps};
use procon::parser::{ProConParser, ProControllerParser, TooShort};
use procon::priority::{core_at, core_for, random_core};
use procon::proxy::{forwarded, home_held, Order, Outcome, Proxy};
use procon::replay::{Action, Line, Replay};
use procon::report::REPORT_FULL;
use procon::stream::{
    clock_difference, header_ok, FrameSender, FrameStreamer, Link, LinkStats, SendOutcome,
    SenderEvent, HEADER,
};
use procon::wake::{is_dwc2, register_base, released, signalling, RemoteWakeup};

#[test]
fn test_hid_descriptor_structure() {
    let desc = create_bidirectional_hid_descriptor();

    // Verify descriptor starts with correct Usage Page and Usage
    assert_eq!(desc[0..2], [0x05, 0x01]); // Usage Page (Generic Desktop)
    assert_eq!(desc[2..4], [0x09, 0x05]); // Usage (Game Pad)
    assert_eq!(desc[4..6], [0xA1, 0x01]); // Collection (Application)

    // Verify input report ID
    assert_eq!(desc[6..8], [0x85, 0x30]); // Report ID 0x30

    // Verify descriptor ends properly
    assert_eq!(desc[desc.len() - 1], 0xC0); // End Collection
}

#[test]
fn test_vendor_product_ids() {
    // Verify we're using correct Nintendo IDs
    assert_eq!(VENDOR_ID, 0x057E); // Nintendo vendor ID
    assert_eq!(PRODUCT_ID, 0x2009); // Pro Controller product ID
}

#[test]
fn frames_are_stored_as_eighty_bytes() {
    let mut frame = Frame::new(0x0102_0304_0506_0708, 0xaabb_ccdd, &[1, 2, 3]);
    frame.forward_us = 0x1122;
    let bytes = frame.to_bytes();
    assert_eq!(bytes.len(), FRAME_SIZE);
    assert_eq!(bytes[0..8], [8, 7, 6, 5, 4, 3, 2, 1]);
    assert_eq!(bytes[8], 3);
    assert_eq!(bytes[9..13], [0xdd, 0xcc, 0xbb, 0xaa]);
    assert_eq!(bytes[13..15], [0x22, 0x11]);
    assert_eq!(bytes[16..20], [1, 2, 3, 0]);
    let again = Frame::parse(&bytes);
    assert_eq!(again.to_bytes(), bytes);
    assert_eq!(again.payload(), [1, 2, 3]);
    let long = Frame::new(1, 2, &[7; 70]);
    assert_eq!(long.payload(), [7; 64]);
    let mut out = Vec::new();
    push_le(&mut out, 0x1234, 2);
    assert_eq!(out, [0x34, 0x12]);
    assert_eq!(read_le(&out, 0, 2), 0x1234);
}

#[test]
fn stamps_take_the_clock() {
    let frame = stamped(7, &[1]).unwrap();
    assert_eq!((frame.seq, frame.packet_size), (7, 1));
    assert!(frame.timestamp_ms > 1_600_000_000_000);
    assert!(unix_ms().unwrap() >= frame.timestamp_ms);
    assert_eq!(millis(1_999_999), 1);
    assert_eq!(millis_at(Some(5_000_000)), Some(5));
    assert_eq!(millis_at(None), None);
    let at = stamped_at(Some(5), 7, &[1]).unwrap();
    assert_eq!((at.timestamp_ms, at.seq, at.payload()), (5, 7, &[1u8][..]));
    assert!(stamped_at(None, 7, &[1]).is_none());
}

#[test]
fn a_full_dump_queue_drops_frames() {
    let mut queue = DumpQueue::new();
    for _ in 0..DUMP_CHANNEL_CAPACITY {
        assert!(queue.offer());
    }
    assert!(!queue.offer());
    assert_eq!((queue.size, queue.drops), (1000, 1));
    queue.offer_flush();
    assert_eq!(queue.size, 1001);
    queue.send_failed();
    assert_eq!(queue.size, 1000);
}

#[test]
fn the_dump_thread_works_through_its_queue() {
    let mut queue = DumpQueue::new();
    let mut worker = DumpWorker::new();
    let frame = Frame::new(1, 1, &[1]);
    assert!(queue.offer() && queue.offer());
    let message = |m: DumpMessage| WorkerEvent::Message(m);
    let step = worker.step(&mut queue, message(DumpMessage::Data(frame)));
    assert_eq!((step.0, step.1), (MessageOrder::Write, WorkerOrder::Poll));
    let step = worker.step(&mut queue, message(DumpMessage::Flush));
    assert_eq!((step.0, step.1), (MessageOrder::Flush, WorkerOrder::Poll));
    assert_eq!(queue.size, 2);
    // The count follows once the queue is empty; then the thread waits
    assert_eq!(worker.step(&mut queue, WorkerEvent::Empty).1, WorkerOrder::Poll);
    assert_eq!(queue.size, 0);
    assert_eq!(worker.step(&mut queue, WorkerEvent::Empty).1, WorkerOrder::Wait);
    queue.offer();
    assert_eq!(
        worker.step(&mut queue, message(DumpMessage::Data(frame))).1,
        WorkerOrder::Poll
    );
    assert_eq!(queue.size, 0);
    let step = worker.step(&mut queue, message(DumpMessage::Shutdown));
    assert_eq!((step.0, step.1), (MessageOrder::Nothing, WorkerOrder::Stop));
    assert_eq!(worker.step(&mut queue, WorkerEvent::Disconnected).1, WorkerOrder::Stop);
}

#[test]
fn the_dump_thread_warns_of_a_long_queue() {
    let mut queue = DumpQueue { size: 901, drops: 3 };
    let mut worker = DumpWorker { processed: 999, batch: 0, waiting: true };
    let frame = Frame::new(1, 1, &[1]);
    let report = worker.step(&mut queue, WorkerEvent::Message(DumpMessage::Data(frame))).2;
    assert_eq!(report, QueueReport { backpressure: Some((900, 3)), dropped: Some(3) });
    let mut count = 998;
    assert!(!frame_dumped(&mut count));
    assert!(frame_dumped(&mut count));
    let mut null = NullDumper::new();
    assert!(null.dump(&[1, 2]).is_ok() && null.flush().is_ok());
}

#[test]
fn hosts_that_leave_are_dropped() {
    let mut streamer = FrameStreamer::new();
    let ids = [streamer.accept(), streamer.accept(), streamer.accept()];
    assert_eq!(ids, [0, 1, 2]);
    streamer.dump(&vec![SendOutcome::Sent, SendOutcome::Disconnected, SendOutcome::Full]);
    assert_eq!(streamer.clients, [0, 2]);
    assert_eq!(streamer.accept(), 3);
}

#[test]
fn quiet_links_send_heartbeats() {
    let mut sender = FrameSender::new();
    let frame = Frame::new(5, 9, &[1]);
    assert_eq!(sender.next_frame(SenderEvent::Frame(frame), 6).unwrap().seq, 9);
    let beat = sender.next_frame(SenderEvent::Timeout, 1006).unwrap();
    assert_eq!((beat.packet_size, beat.seq, beat.timestamp_ms), (0, 9, 1006));
    assert!(sender.next_frame(SenderEvent::Disconnected, 1007).is_none());
    assert!(header_ok(b"PROCON\0\x01") && header_ok(&HEADER));
    assert!(!header_ok(b"PROCON\0\x02") && !header_ok(b"PROCON"));
}

#[test]
fn links_count_what_is_missing() {
    let mut stats = LinkStats::new();
    let mut link = Link::new(0);
    let mut frame = Frame::new(100, 10, &[1]);
    frame.forward_us = 30;
    assert!(link.take_frame(&mut stats, &frame, 50, 1));
    frame.seq = 13;
    frame.forward_us = 10;
    assert!(link.take_frame(&mut stats, &frame, 40, 2));
    assert_eq!((stats.frames, stats.dropped, stats.clock_offset_ms), (2, 2, 40));
    // A heartbeat is no report
    let beat = Frame::new(100, 13, &[]);
    assert!(!link.take_frame(&mut stats, &beat, 60, 3));
    assert_eq!(stats.frames, 2);
    // A huge jump is a restart
    frame.seq = 5;
    assert!(link.take_frame(&mut stats, &frame, 60, 4));
    assert_eq!(stats.dropped, 2);
    assert_eq!(stats.take_forward_us(), Some((50, 3, 30)));
    assert_eq!(stats.take_forward_us(), None);
    // After the first window the estimate moves once per window
    let window = 10_000_000_000;
    link.take_frame(&mut stats, &beat, 70, window);
    assert_eq!(stats.clock_offset_ms, 40);
    link.take_frame(&mut stats, &beat, 70, window + 1);
    assert_eq!(stats.clock_offset_ms, 40);
    link.take_frame(&mut stats, &beat, 80, 2 * window);
    assert_eq!(stats.clock_offset_ms, 70);
    assert_eq!(clock_difference(5, 9), Some(-4));
    assert_eq!(clock_difference(1 << 63, 1), None);
}

#[test]
fn the_proxy_takes_turns() {
    let mut proxy = Proxy::new();
    assert_eq!(proxy.step(Outcome::Failed), Order::RetryLater);
    assert_eq!(proxy.step(Outcome::Nothing), Order::OpenGadget);
    assert_eq!(proxy.step(Outcome::Done(0)), Order::ReadController);
    assert_eq!(proxy.step(Outcome::Done(64)), Order::Forward(64));
    assert_eq!(proxy.step(Outcome::Done(64)), Order::ReadGadget);
    assert_eq!(proxy.frame_count, 1);
    assert_eq!(proxy.step(Outcome::Done(10)), Order::WriteController(10));
    assert_eq!(proxy.step(Outcome::Done(10)), Order::ReadController);
    assert_eq!(proxy.step(Outcome::Nothing), Order::ReadGadget);
    assert_eq!(proxy.step(Outcome::Nothing), Order::ReadController);
    assert!(proxy.log_due(1) && !proxy.log_due(2));
}

#[test]
fn frames_hold_the_time_to_the_console() {
    let frame = Proxy::new().stamp(5, &[1, 2]);
    assert_eq!(frame.forward_us, 0);
    let taken = forwarded(frame, Outcome::Done(2), 700);
    assert_eq!((taken.forward_us, taken.timestamp_ms, taken.payload()), (700, 5, &[1u8, 2][..]));
    assert_eq!(forwarded(frame, Outcome::Done(2), 70_000).forward_us, 65_535);
    // Not known when the console did not take it
    assert_eq!(forwarded(taken, Outcome::Nothing, 700).forward_us, 0);
    assert_eq!(forwarded(taken, Outcome::Failed, 700).forward_us, 0);
}

#[test]
fn the_proxy_recovers() {
    let mut proxy = Proxy::new();
    proxy.step(Outcome::Done(0));
    assert_eq!(proxy.step(Outcome::Failed), Order::Reconnect);
    assert_eq!(proxy.step(Outcome::Done(0)), Order::ReadController);
    proxy.step(Outcome::Done(5));
    // A sleeping console takes nothing: the report is dropped
    assert_eq!(proxy.step(Outcome::Nothing), Order::ReadGadget);
    assert!(!proxy.taking);
    assert_eq!(proxy.frame_count, 0);
    assert_eq!(proxy.step(Outcome::Failed), Order::OpenGadget);
    assert!(!proxy.gadget_open);
    proxy.step(Outcome::Done(0));
    proxy.step(Outcome::Done(5));
    assert_eq!(proxy.step(Outcome::Failed), Order::OpenGadget);
    proxy.step(Outcome::Done(0));
    proxy.step(Outcome::Failed);
    assert_eq!(proxy.step(Outcome::Failed), Order::Fail);
    assert_eq!(proxy.step(Outcome::Done(0)), Order::Fail);
}

#[test]
fn what_is_recorded_is_what_the_console_gets() {
    let mut proxy = Proxy::new();
    let mut replay = Replay::new();
    let mut data = [0u8; 64];
    data[0] = REPORT_FULL;
    data[4] = 0x10;
    assert!(home_held(&data));
    let frame = proxy.take_report(&replay, 5, &mut data);
    assert_eq!(frame.payload(), data);
    let action = Action {
        t_ms: None,
        buttons: Some(vec!["a".to_string()]),
        left_stick: None,
        right_stick: None,
        gyro: None,
        accel: None,
        mix: false,
    };
    replay.take_line(Line::Decoded(action)).unwrap();
    let frame = proxy.take_report(&replay, 6, &mut data);
    assert_eq!(data[3..6], [0x08, 0, 0]);
    assert_eq!(frame.payload(), data);
    assert_eq!((frame.seq, frame.timestamp_ms), (1, 6));
    assert!(!home_held(&data));
    assert!(!home_held(&[REPORT_FULL, 0, 0, 0, 0x10]));
    assert_eq!(proxy.stamp(7, &[1, 2]).seq, 2);
}

#[test]
fn the_controller_is_found_by_its_numbers() {
    let ids = |v: &str, p: &str| UsbIds {
        vendor: Some(v.to_string()),
        product: Some(p.to_string()),
    };
    let none = UsbIds { vendor: None, product: None };
    let devices = vec![none, ids("057e\n", "2008\n"), ids("057e\n", "2009\n")];
    assert_eq!(find_controller(&devices), Some(2));
    assert_eq!(find_controller(&vec![ids("x", "2009")]), None);
    assert!(is_controller(0x057e, 0x2009) && !is_controller(0x057e, 0x2006));
    assert!(reset_timed_out(RESET_TIMEOUT_NS + 1) && !reset_timed_out(RESET_TIMEOUT_NS));
}

#[test]
fn the_first_gadget_device_is_taken() {
    let mut present = vec![false; 10];
    assert_eq!(find_hidg_device(&present), None);
    present[3] = true;
    present[7] = true;
    assert_eq!(find_hidg_device(&present).as_deref(), Some("/dev/hidg3"));
    assert_eq!(hidg_path(0), "/dev/hidg0");
}

#[test]
fn sleeping_consoles_are_woken() {
    assert_eq!(register_base("fe980000.usb"), Some(0xfe98_0000));
    assert_eq!(register_base("dummy_udc.0"), None);
    assert!(is_dwc2(0x4f54_280a) && !is_dwc2(0x5533_280a));
    assert!(RemoteWakeup { status: 1 }.wake());
    assert!(!RemoteWakeup { status: 2 }.bus_suspended());
    assert_eq!(signalling(0x10), 0x11);
    assert_eq!(released(0x11), 0x10);
}

#[test]
fn cores_are_picked_by_the_clock() {
    assert_eq!(core_for(10, 4), 2);
    assert_eq!(core_at(Some((1 << 64) + 10), 4), Some(2));
    assert_eq!(core_at(None, 4), None);
    assert!(random_core().is_some());
}

#[test]
fn reports_are_parsed() {
    let mut data = [0u8; 64];
    data[0] = REPORT_FULL;
    data[2] = 0x91;
    data[3] = 0x01;
    data[5] = 0x80;
    data[6..9].copy_from_slice(&[0x23, 0xc1, 0xab]);
    data[13..15].copy_from_slice(&(-5i16).to_le_bytes());
    data[13 + 12 + 6..13 + 12 + 8].copy_from_slice(&300i16.to_le_bytes());
    let state = ProConParser::parse_input_report(&data).unwrap();
    assert!(state.buttons.y && state.buttons.zl && !state.buttons.a);
    assert_eq!((state.left_stick.x, state.left_stick.y), (0x123, 0xabc));
    assert_eq!((state.battery_level, state.connection_info), (9, 1));
    assert_eq!(state.gyro.len(), 3);
    assert_eq!(state.gyro[0].accel_x, -5);
    assert_eq!(state.gyro[1].gyro_x, 300);
    assert!(state.timestamp.secs > 1_600_000_000);
    let spare = ProConParser::parse_buttons(&[0x08, 0x10 ^ 0xc0, 0]);
    let buttons = ProConParser::parse_buttons(&[0x08, 0x10, 0]);
    assert_eq!(format!("{spare:?}"), format!("{buttons:?}"));
    assert!(buttons.a && buttons.home && !buttons.y);
    // A short report has no motion; shorter ones are refused
    let at = Timestamp { secs: 1, nanos: 2 };
    let short = ProConParser::parse_stamped(&data[..12], 12, at).unwrap();
    assert!(short.gyro.is_empty());
    assert_eq!(short.timestamp, at);
    assert!(matches!(ProConParser::parse_input_report(&data[..11]), Err(TooShort(11))));
    let capture = ProControllerParser;
    assert!(matches!(capture.parse_input_report(&data[..63]), Err(TooShort(63))));
    assert!(capture.parse_input_report(&data).is_ok());
}

#[test]
fn poses_are_centered_on_y() {
    let mut steps = PoseSteps::new();
    assert!(steps.step(false, 100, false).center);
    // Until gravity is felt every report centers
    assert!(steps.step(false, 108, true).center);
    let step = steps.step(false, 116, true);
    assert_eq!((step.center, step.step_ms), (false, 8));
    let step = steps.step(true, 1000, true);
    assert_eq!((step.center, step.step_ms), (true, 50));
    assert!(!steps.step(true, 1008, true).center);
    assert_eq!(steps.step(false, 1000, true).step_ms, 0);
    let sample = GyroData {
        accel_x: 1,
        accel_y: -2,
        accel_z: 4096,
        gyro_x: 10,
        gyro_y: 20,
        gyro_z: -30,
    };
    let sums = imu_sums(&vec![sample; 3]).unwrap();
    assert_eq!((sums.gyro_x, sums.gyro_y, sums.gyro_z), (30, 60, -90));
    assert_eq!((sums.accel_x, sums.accel_y, sums.accel_z), (3, -6, 12288));
    assert!(imu_sums(&vec![]).is_none());
}
