//! The connection engine's decisions: setup, full and partial writes,
//! reconnect backoff, and teardown.

use std::rc::Rc;

use epizentrum::draw_strategy::DrawStrategy;
use epizentrum::flut_op::{
    ControlFlow, DebugShield, FlutOp, FlutOpData, Op, PeerAddr, Submission, INITIAL_BACKOFF_NANOS,
};
use epizentrum::frame_processing::rayon_processor::RayonProcessor;
use epizentrum::frame_source::Frame;
use epizentrum::{BufferSource, CompositeBufferSource, ProcessorKind};

const MS: u64 = 1_000_000;
const SEC: u64 = 1_000_000_000;

fn one_source() -> BufferSource {
    let source = epizentrum::frame_source::media_source::MediaSource::new(
        (1, 1),
        vec![(Frame::Rgba(vec![[1, 1, 1, 0xff]]), 100 * MS)],
    )
    .unwrap();
    BufferSource::Raw(CompositeBufferSource {
        source,
        processor: ProcessorKind::Cpu(RayonProcessor::new(
            (1, 1),
            (0, 0),
            (1, 1),
            DrawStrategy::Rows { reversed: false },
        )),
    })
}

fn addr() -> PeerAddr {
    PeerAddr::V4 { ip: 0x7f000001, port: 1337 }
}

#[test]
fn setup_submits_one_write_per_connection() {
    let mut engine = FlutOp::new(vec![one_source(), one_source()], None, None, None);
    let subs = engine
        .setup(vec![(3, addr()), (4, addr()), (5, addr())], 0, 0)
        .unwrap();
    assert_eq!(subs.len(), 3);
    assert_eq!(engine.connections, 3);
    for (i, (op, data)) in subs.iter().enumerate() {
        match op {
            Op::Write { fd, buf, offset, len } => {
                assert_eq!(*fd, 3 + i as i32);
                assert_eq!(*offset, 0);
                assert_eq!(*len, buf.0.len());
                assert_eq!(*buf.0, b"PX 0 0 01\n".to_vec());
            }
            _ => panic!("expected a write"),
        }
        match data {
            FlutOpData::ConnectionEstablished { connection_id, source_index, last_buffer, .. } => {
                assert_eq!(*connection_id, i);
                assert_eq!(*source_index, (i + 1) % 2);
                let (b, w) = last_buffer.as_ref().unwrap();
                assert_eq!(*w, 0);
                assert_eq!(*b.0, b"PX 0 0 01\n".to_vec());
            }
            _ => panic!("expected an established tag"),
        }
    }
}

#[test]
fn setup_respects_the_connection_limit() {
    let mut engine = FlutOp::new(vec![one_source()], Some(2), None, None);
    let subs = engine
        .setup(vec![(3, addr()), (4, addr()), (5, addr())], 0, 0)
        .unwrap();
    assert_eq!(subs.len(), 2);
    assert_eq!(engine.connections, 2);
}

#[test]
fn partial_write_resubmits_the_tail() {
    let mut engine = FlutOp::new(vec![one_source()], None, None, None);
    engine.connections = 1;
    let buffer: Rc<Vec<u8>> = Rc::new(b"PX 0 0 01\n".to_vec());
    let data = FlutOpData::ConnectionEstablished {
        connection_id: 0,
        fd: 9,
        addr: addr(),
        source_index: 0,
        last_buffer: Some((DebugShield(Rc::clone(&buffer)), 0)),
    };
    let (flow, sub) = engine.on_completion(data, 5, 0, 0);
    assert!(matches!(flow, ControlFlow::Continue));
    match sub.unwrap() {
        Submission::Push { op, data } => {
            match op {
                Op::Write { fd, buf, offset, len } => {
                    assert_eq!(fd, 9);
                    assert!(Rc::ptr_eq(&buf.0, &buffer));
                    assert_eq!(offset, 5);
                    assert_eq!(len, buffer.len() - 5);
                }
                _ => panic!("expected a write"),
            }
            match data {
                FlutOpData::ConnectionEstablished { source_index, last_buffer, .. } => {
                    assert_eq!(source_index, 0);
                    let (b, w) = last_buffer.unwrap();
                    assert!(Rc::ptr_eq(&b.0, &buffer));
                    assert_eq!(w, 5);
                }
                _ => panic!("expected an established tag"),
            }
        }
        _ => panic!("expected a push"),
    }
}

#[test]
fn full_write_advances_the_round_robin() {
    let mut engine = FlutOp::new(vec![one_source(), one_source()], None, None, None);
    engine.connections = 1;
    let buffer: Rc<Vec<u8>> = Rc::new(b"abcd".to_vec());
    let data = FlutOpData::ConnectionEstablished {
        connection_id: 0,
        fd: 9,
        addr: addr(),
        source_index: 1,
        last_buffer: Some((DebugShield(Rc::clone(&buffer)), 1)),
    };
    let (flow, sub) = engine.on_completion(data, 3, 0, 0);
    assert!(matches!(flow, ControlFlow::Continue));
    match sub.unwrap() {
        Submission::Push { op, data } => {
            match op {
                Op::Write { offset, len, .. } => {
                    assert_eq!(offset, 0);
                    assert_eq!(len, b"PX 0 0 01\n".len());
                }
                _ => panic!("expected a write"),
            }
            match data {
                FlutOpData::ConnectionEstablished { source_index, .. } => {
                    assert_eq!(source_index, 0);
                }
                _ => panic!("expected an established tag"),
            }
        }
        _ => panic!("expected a push"),
    }
}

#[test]
fn dead_connection_requests_a_socket() {
    let mut engine = FlutOp::new(vec![one_source()], None, None, None);
    engine.connections = 1;
    let data = FlutOpData::ConnectionEstablished {
        connection_id: 7,
        fd: 9,
        addr: addr(),
        source_index: 0,
        last_buffer: None,
    };
    let (flow, sub) = engine.on_completion(data, -104, 0, 0);
    assert!(matches!(flow, ControlFlow::Continue));
    match sub.unwrap() {
        Submission::OpenSocket { connection_id, source_index, .. } => {
            assert_eq!(connection_id, 7);
            assert_eq!(source_index, 0);
        }
        _ => panic!("expected a socket request"),
    }
    // The host then builds the one-second backoff pair.
    let (op, data) = FlutOp::<BufferSource>::first_reconnect(7, 11, addr(), 0);
    assert!(matches!(op, Op::Timeout { nanos: INITIAL_BACKOFF_NANOS }));
    match data {
        FlutOpData::Backoff(op, next) => {
            assert!(matches!(op, Op::Connect { fd: 11, .. }));
            match *next {
                FlutOpData::Reconnecting { backoff, reconnects, .. } => {
                    assert_eq!(backoff, SEC);
                    assert_eq!(reconnects, 1);
                }
                _ => panic!("expected a reconnecting tag"),
            }
        }
        _ => panic!("expected a backoff tag"),
    }
}

#[test]
fn reconnect_backoff_doubles_then_clamps() {
    let mut engine = FlutOp::new(vec![one_source()], None, Some(8 * SEC), None);
    engine.connections = 1;
    let mut backoff = SEC;
    let mut reconnects = 1;
    let mut seen = Vec::new();
    for _ in 0..5 {
        let data = FlutOpData::Reconnecting {
            connection_id: 0,
            fd: 9,
            addr: addr(),
            source_index: 0,
            backoff,
            reconnects,
        };
        let (flow, sub) = engine.on_completion(data, -111, 0, 0);
        assert!(matches!(flow, ControlFlow::Continue));
        match sub.unwrap() {
            Submission::Push { op, data } => {
                match op {
                    Op::Timeout { nanos } => seen.push(nanos),
                    _ => panic!("expected a timeout"),
                }
                match data {
                    FlutOpData::Backoff(_, next) => match *next {
                        FlutOpData::Reconnecting { backoff: b2, reconnects: r2, .. } => {
                            backoff = b2;
                            reconnects = r2;
                        }
                        _ => panic!("expected a reconnecting tag"),
                    },
                    _ => panic!("expected a backoff tag"),
                }
            }
            _ => panic!("expected a push"),
        }
    }
    assert_eq!(seen, vec![2 * SEC, 4 * SEC, 8 * SEC, 8 * SEC, 8 * SEC]);
    assert_eq!(reconnects, 6);
}

#[test]
fn exhausted_reconnects_retire_the_connection() {
    let mut engine = FlutOp::new(vec![one_source()], None, None, Some(3));
    engine.connections = 2;
    let data = FlutOpData::Reconnecting {
        connection_id: 0,
        fd: 9,
        addr: addr(),
        source_index: 0,
        backoff: SEC,
        reconnects: 3,
    };
    let (flow, sub) = engine.on_completion(data, -111, 0, 0);
    assert!(matches!(flow, ControlFlow::Continue));
    assert!(sub.is_none());
    assert_eq!(engine.connections, 1);
    // The last connection's death exits the loop.
    let data = FlutOpData::Reconnecting {
        connection_id: 1,
        fd: 10,
        addr: addr(),
        source_index: 0,
        backoff: SEC,
        reconnects: 5,
    };
    let (flow, _) = engine.on_completion(data, -111, 0, 0);
    assert!(matches!(flow, ControlFlow::Exit));
    assert_eq!(engine.connections, 0);
}

#[test]
fn successful_reconnect_streams_again() {
    let mut engine = FlutOp::new(vec![one_source()], None, None, None);
    engine.connections = 1;
    let data = FlutOpData::Reconnecting {
        connection_id: 0,
        fd: 9,
        addr: addr(),
        source_index: 0,
        backoff: 2 * SEC,
        reconnects: 2,
    };
    let (flow, sub) = engine.on_completion(data, 0, 0, 0);
    assert!(matches!(flow, ControlFlow::Continue));
    match sub.unwrap() {
        Submission::Push { op, .. } => match op {
            Op::Write { offset, .. } => assert_eq!(offset, 0),
            _ => panic!("expected a write"),
        },
        _ => panic!("expected a push"),
    }
}

#[test]
fn backoff_completion_submits_the_carried_operation() {
    let mut engine = FlutOp::new(vec![one_source()], None, None, None);
    engine.connections = 1;
    let inner = FlutOpData::Reconnecting {
        connection_id: 0,
        fd: 9,
        addr: addr(),
        source_index: 0,
        backoff: SEC,
        reconnects: 1,
    };
    let data = FlutOpData::Backoff(Op::Connect { fd: 9, addr: addr() }, Box::new(inner));
    let (flow, sub) = engine.on_completion(data, 0, 0, 0);
    assert!(matches!(flow, ControlFlow::Continue));
    match sub.unwrap() {
        Submission::Push { op, data } => {
            assert!(matches!(op, Op::Connect { fd: 9, .. }));
            assert!(matches!(data, FlutOpData::Reconnecting { .. }));
        }
        _ => panic!("expected a push"),
    }
}

#[test]
fn no_reconnect_policy_exits_when_the_last_connection_dies() {
    let mut engine = FlutOp::new(vec![one_source()], None, None, Some(0));
    engine.connections = 1;
    let data = FlutOpData::ConnectionEstablished {
        connection_id: 0,
        fd: 9,
        addr: addr(),
        source_index: 0,
        last_buffer: None,
    };
    let (flow, sub) = engine.on_completion(data, 0, 0, 0);
    assert!(matches!(flow, ControlFlow::Exit));
    assert!(sub.is_none());
    assert_eq!(engine.connections, 0);
}

#[test]
fn teardown_releases_connections() {
    let mut engine = FlutOp::new(vec![one_source()], None, None, None);
    engine.connections = 2;
    let data = FlutOpData::ConnectionEstablished {
        connection_id: 0,
        fd: 9,
        addr: addr(),
        source_index: 0,
        last_buffer: None,
    };
    assert!(engine.on_teardown_completion(data).is_ok());
    assert_eq!(engine.connections, 1);
}
