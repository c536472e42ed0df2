//! Accept queues of TCP listeners: classification, caching and the netlink dump.
use dial9_tokio_telemetry::sock_diag::{
    accept_datagram, apply_message, check_sent, combine_cookie, listener_request, nlmsg_align,
    parse_response_datagram, read_datagram, snapshot_from_response, socket_cookie_from_diag,
    DiagBody, DiagMessage, DumpError, InetDiag, AF_INET, AF_INET6, TCP_LISTEN,
};
use dial9_tokio_telemetry::socket_accept_queues::{
    classify_process_listeners, parse_socket_inode, FdScan, InodeError, QueuesFlush,
    SocketAcceptQueueCache, SocketAcceptQueueSnapshot, SocketAcceptQueuesConfig,
    SocketAcceptQueuesSource, SocketKey,
};
use std::cell::Cell;
use std::collections::{HashMap, HashSet};
use std::time::Duration;

fn snapshot_with_key(key: SocketKey) -> SocketAcceptQueueSnapshot {
    SocketAcceptQueueSnapshot {
        key,
        ip_version: 4,
        local_addr: "127.0.0.1".to_string(),
        local_port: 8080,
        pending_connections: 1,
        backlog_limit: 128,
    }
}

fn assert_same(actual: &[SocketAcceptQueueSnapshot], expected: &[SocketAcceptQueueSnapshot]) {
    assert_eq!(format!("{actual:?}"), format!("{expected:?}"));
}

#[test]
fn default_sample_interval_is_one_second() {
    assert_eq!(
        Duration::from_nanos(SocketAcceptQueuesConfig::default().sample_interval()),
        Duration::from_secs(1)
    );
}

#[test]
fn parse_socket_inode_extracts_socket_symlink_inode() {
    assert_eq!(parse_socket_inode("socket:[12345]").unwrap(), Some(12345));
}

#[test]
fn parse_socket_inode_ignores_non_socket_symlink() {
    assert_eq!(parse_socket_inode("/dev/null").unwrap(), None);
}

#[test]
fn socket_names_without_a_number_are_invalid() {
    for name in ["socket:[]", "socket:[12x]", "socket:[-1]", "socket:[18446744073709551616]"] {
        assert_eq!(parse_socket_inode(name), Err(InodeError::InvalidInode));
    }
    assert_eq!(parse_socket_inode("socket:[18446744073709551615]"), Ok(Some(u64::MAX)));
    assert_eq!(parse_socket_inode("socket:[007]"), Ok(Some(7)));
    assert_eq!(parse_socket_inode("socket:[+7]"), Ok(Some(7)));
    for other in ["socket:[12", "socket:12]", "Socket:[12]", "", "socket:[", "pipe:[12]"] {
        assert_eq!(parse_socket_inode(other), Ok(None));
    }
}

#[test]
fn cached_owned_listener_does_not_scan_process_fds_again() {
    let key = SocketKey { inode: 123, cookie: 456 };
    let fd_path = "/proc/self/fd/7".to_string();
    let mut cache = SocketAcceptQueueCache::new();
    cache.insert_owned(key, fd_path.clone());
    let scans = Cell::new(0);
    let snapshots = classify_process_listeners::<String, _, _>(
        vec![snapshot_with_key(key)],
        &mut cache,
        |path| {
            assert_eq!(path, &fd_path);
            Ok(Some(key.inode))
        },
        |_| {
            scans.set(scans.get() + 1);
            Ok(HashMap::new())
        },
    )
    .unwrap();
    assert_same(&snapshots, &[snapshot_with_key(key)]);
    assert_eq!(scans.get(), 0);
}

#[test]
fn unknown_listener_scans_once_and_caches_owned_listener() {
    let key = SocketKey { inode: 123, cookie: 456 };
    let fd_path = "/proc/self/fd/7".to_string();
    let mut cache = SocketAcceptQueueCache::new();
    let scans = Cell::new(0);
    let snapshots = classify_process_listeners::<String, _, _>(
        vec![snapshot_with_key(key)],
        &mut cache,
        |_| panic!("unknown listeners should not validate cached fd paths"),
        |target_inodes| {
            scans.set(scans.get() + 1);
            assert!(target_inodes.contains(&key.inode));
            Ok(HashMap::from([(key.inode, fd_path.clone())]))
        },
    )
    .unwrap();
    assert_same(&snapshots, &[snapshot_with_key(key)]);
    assert_eq!(cache.owned(key), Some(&fd_path));
    assert_eq!(scans.get(), 1);
}

#[test]
fn cached_foreign_listener_does_not_rescan() {
    let key = SocketKey { inode: 123, cookie: 456 };
    let mut cache = SocketAcceptQueueCache::new();
    cache.insert_foreign(key);
    let scans = Cell::new(0);
    let snapshots = classify_process_listeners::<String, _, _>(
        vec![snapshot_with_key(key)],
        &mut cache,
        |_| panic!("foreign listeners should not validate fd paths"),
        |_| {
            scans.set(scans.get() + 1);
            Ok(HashMap::new())
        },
    )
    .unwrap();
    assert!(snapshots.is_empty());
    assert_eq!(scans.get(), 0);
}

#[test]
fn inactive_cache_entries_are_pruned_before_classification() {
    let old_key = SocketKey { inode: 123, cookie: 456 };
    let new_key = SocketKey { inode: 123, cookie: 789 };
    let fd_path = "/proc/self/fd/7".to_string();
    let mut cache = SocketAcceptQueueCache::new();
    cache.insert_foreign(old_key);
    let snapshots = classify_process_listeners::<String, _, _>(
        vec![snapshot_with_key(new_key)],
        &mut cache,
        |_| panic!("new listener should be unknown, not cached"),
        |_| Ok(HashMap::from([(new_key.inode, fd_path.clone())])),
    )
    .unwrap();
    assert_same(&snapshots, &[snapshot_with_key(new_key)]);
    assert!(!cache.is_foreign(old_key));
    assert_eq!(cache.owned(new_key), Some(&fd_path));
}

#[test]
fn a_moved_descriptor_makes_its_listener_unknown_again() {
    let moved = SocketKey { inode: 1, cookie: 10 };
    let kept = SocketKey { inode: 2, cookie: 20 };
    let mut cache = SocketAcceptQueueCache::new();
    cache.insert_owned(moved, "/proc/self/fd/1".to_string());
    cache.insert_owned(kept, "/proc/self/fd/2".to_string());
    let snapshots = classify_process_listeners::<String, _, _>(
        vec![snapshot_with_key(moved), snapshot_with_key(kept)],
        &mut cache,
        |path| Ok(if path.ends_with('1') { None } else { Some(2) }),
        |targets| {
            assert_eq!(targets, &HashSet::from([1]));
            Ok(HashMap::new())
        },
    )
    .unwrap();
    assert_same(&snapshots, &[snapshot_with_key(kept)]);
    assert!(cache.is_foreign(moved));
    assert_eq!(cache.owned(moved), None);
}

#[test]
fn lookup_failures_are_passed_on() {
    let key = SocketKey { inode: 1, cookie: 1 };
    let mut cache = SocketAcceptQueueCache::new();
    cache.insert_owned(key, "/proc/self/fd/1".to_string());
    let read = classify_process_listeners(
        vec![snapshot_with_key(key)],
        &mut cache,
        |_| Err("read".to_string()),
        |_| Ok(HashMap::new()),
    );
    assert_eq!(read.unwrap_err(), "read");
    let scan = classify_process_listeners(
        vec![snapshot_with_key(key)],
        &mut SocketAcceptQueueCache::new(),
        |_| Ok(None),
        |_| Err("scan".to_string()),
    );
    assert_eq!(scan.unwrap_err(), "scan");
}

#[test]
fn a_scan_keeps_the_first_descriptor_of_each_target() {
    let mut scan = FdScan::new(HashSet::from([5, 6]));
    scan.look_at("/proc/self/fd/0".to_string(), None);
    scan.look_at("/proc/self/fd/3".to_string(), Some(5));
    scan.look_at("/proc/self/fd/4".to_string(), Some(5));
    scan.look_at("/proc/self/fd/5".to_string(), Some(99));
    assert!(!scan.is_complete());
    scan.look_at("/proc/self/fd/6".to_string(), Some(6));
    assert!(scan.is_complete());
    let found = scan.into_found();
    assert_eq!(found.len(), 2);
    assert_eq!(found[&5], "/proc/self/fd/3");
    assert_eq!(found[&6], "/proc/self/fd/6");
}

#[test]
fn socket_cookie_from_diag_combines_kernel_cookie_words() {
    let low = 0x5566_7788_u32.to_ne_bytes();
    let high = 0x1122_3344_u32.to_ne_bytes();
    assert_eq!(
        socket_cookie_from_diag([
            low[0], low[1], low[2], low[3], high[0], high[1], high[2], high[3],
        ]),
        0x1122_3344_5566_7788
    );
    let low = 0x5566_7788_u32.to_be_bytes();
    let high = 0x1122_3344_u32.to_be_bytes();
    let bytes = [low[0], low[1], low[2], low[3], high[0], high[1], high[2], high[3]];
    assert_eq!(combine_cookie(bytes, true), 0x1122_3344_5566_7788);
    assert_eq!(combine_cookie(bytes, false), 0x4433_2211_8877_6655);
}

fn header(length: u32, kind: u16, sequence: u32) -> Vec<u8> {
    let mut bytes = Vec::new();
    bytes.extend(length.to_ne_bytes());
    bytes.extend(kind.to_ne_bytes());
    bytes.extend(2u16.to_ne_bytes());
    bytes.extend(sequence.to_ne_bytes());
    bytes.extend(0u32.to_ne_bytes());
    bytes
}

fn done(sequence: u32) -> Vec<u8> {
    let mut bytes = header(20, 3, sequence);
    bytes.extend(0i32.to_ne_bytes());
    bytes
}

fn error(sequence: u32, code: i32) -> Vec<u8> {
    let mut bytes = header(36, 2, sequence);
    bytes.extend(code.to_ne_bytes());
    bytes.extend([0u8; 16]);
    bytes
}

fn listener(sequence: u32, family: u8, state: u8, port: u16, inode: u32) -> Vec<u8> {
    let mut bytes = header(88, 20, sequence);
    bytes.extend([family, state, 0, 0]);
    bytes.extend(port.to_be_bytes());
    bytes.extend(0u16.to_be_bytes());
    let mut source = [0u8; 16];
    if family == AF_INET {
        source[..4].copy_from_slice(&[127, 0, 0, 1]);
    } else {
        source[15] = 1;
    }
    bytes.extend(source);
    bytes.extend([0u8; 16]);
    bytes.extend(0u32.to_ne_bytes());
    bytes.extend(0x5566_7788u32.to_ne_bytes());
    bytes.extend(0x1122_3344u32.to_ne_bytes());
    bytes.extend(0u32.to_ne_bytes());
    bytes.extend(3u32.to_ne_bytes());
    bytes.extend(128u32.to_ne_bytes());
    bytes.extend(1000u32.to_ne_bytes());
    bytes.extend(inode.to_ne_bytes());
    assert_eq!(bytes.len(), 88);
    bytes
}

#[test]
fn listeners_in_a_datagram_become_snapshots() {
    let mut bytes = listener(1, AF_INET, TCP_LISTEN, 8080, 42);
    bytes.extend(listener(1, AF_INET, 1, 9999, 43));
    bytes.extend(listener(2, AF_INET, TCP_LISTEN, 9998, 44));
    bytes.extend(listener(1, AF_INET6, TCP_LISTEN, 443, 45));
    let mut snapshots = Vec::new();
    assert_eq!(parse_response_datagram(&bytes, 1, &mut snapshots).unwrap(), false);
    let key = |inode| SocketKey { inode, cookie: 0x1122_3344_5566_7788 };
    assert_same(
        &snapshots,
        &[
            SocketAcceptQueueSnapshot {
                key: key(42),
                ip_version: 4,
                local_addr: "127.0.0.1".to_string(),
                local_port: 8080,
                pending_connections: 3,
                backlog_limit: 128,
            },
            SocketAcceptQueueSnapshot {
                key: key(45),
                ip_version: 6,
                local_addr: "::1".to_string(),
                local_port: 443,
                pending_connections: 3,
                backlog_limit: 128,
            },
        ],
    );
    assert_eq!(parse_response_datagram(&done(1), 1, &mut snapshots).unwrap(), true);
    assert_eq!(parse_response_datagram(&done(2), 1, &mut snapshots).unwrap(), false);
    assert_eq!(snapshots.len(), 2);
}

#[test]
fn errors_of_the_kernel_end_the_dump() {
    let mut snapshots = Vec::new();
    let mut bytes = listener(1, AF_INET, TCP_LISTEN, 80, 1);
    bytes.extend(error(1, -13));
    bytes.extend(listener(1, AF_INET, TCP_LISTEN, 81, 2));
    let result = accept_datagram(&bytes, 1, &mut snapshots);
    assert!(matches!(result, Err(DumpError::Kernel(-13))), "{result:?}");
    assert_eq!(snapshots.len(), 1);
    // An error of another request, and an acknowledgement, end nothing.
    assert!(matches!(accept_datagram(&error(9, -13), 1, &mut snapshots), Ok(false)));
    assert!(matches!(accept_datagram(&error(1, 0), 1, &mut snapshots), Ok(false)));
}

#[test]
fn malformed_datagrams_are_refused() {
    let mut snapshots = Vec::new();
    let empty = accept_datagram(&[], 1, &mut snapshots);
    assert!(matches!(empty, Err(DumpError::EmptyResponse)));
    let short = accept_datagram(&[1, 2, 3], 1, &mut snapshots);
    assert!(matches!(short, Err(DumpError::Decode(_))));
    let long = accept_datagram(&header(400, 3, 1), 1, &mut snapshots);
    assert!(matches!(long, Err(DumpError::Decode(_))));
    let zero = accept_datagram(&header(0, 3, 1), 1, &mut snapshots);
    assert!(matches!(zero, Err(DumpError::Decode(_))));
    let cut = accept_datagram(&header(16, 20, 1), 1, &mut snapshots);
    assert!(matches!(cut, Err(DumpError::Decode(_))));
}

#[test]
fn datagrams_are_read_message_by_message() {
    let bytes = [5u8, 1, 1, 1, 1, 0, 0, 0, 3, 2, 2];
    let mut snapshots = Vec::new();
    let seen = std::cell::RefCell::new(Vec::new());
    let r = read_datagram(
        &bytes,
        7,
        &mut snapshots,
        |rest| Ok(rest[0] as u32),
        |packet| {
            seen.borrow_mut().push(packet.to_vec());
            Ok(DiagMessage { sequence: 7, body: DiagBody::Done })
        },
    );
    assert!(matches!(r, Ok(true)));
    assert_eq!(seen.into_inner(), vec![vec![5, 1, 1, 1, 1], vec![3, 2, 2]]);
    let zero = read_datagram(&[0], 7, &mut snapshots, |_| Ok(0), |_| Err("unused".to_string()));
    assert!(matches!(zero, Err(DumpError::ZeroLength)));
    let bad = read_datagram(&[1], 7, &mut snapshots, |_| Ok(1), |_| Err("bad".to_string()));
    assert!(matches!(bad, Err(DumpError::Decode(text)) if text == "bad"));
}

#[test]
fn requests_ask_for_listeners_of_one_family() {
    for (family, sequence) in [(AF_INET, 1u32), (AF_INET6, 2u32)] {
        let bytes = listener_request(family, sequence).unwrap();
        assert_eq!(bytes.len(), 72);
        assert_eq!(bytes[0..4], 72u32.to_ne_bytes());
        assert_eq!(bytes[4..6], 20u16.to_ne_bytes());
        assert_eq!(bytes[6..8], 0x301u16.to_ne_bytes());
        assert_eq!(bytes[8..12], sequence.to_ne_bytes());
        assert_eq!(bytes[16], family);
        assert_eq!(bytes[17], 6);
        assert_eq!(bytes[20..24], 0x400u32.to_ne_bytes());
    }
    assert!(matches!(listener_request(1, 3), Err(DumpError::UnsupportedFamily(1))));
    assert!(check_sent(72, 72).is_ok());
    assert!(matches!(check_sent(10, 72), Err(DumpError::ShortWrite { sent: 10, expected: 72 })));
}

#[test]
fn messages_are_applied_one_at_a_time() {
    let mut snapshots = Vec::new();
    let other = DiagMessage { sequence: 1, body: DiagBody::Other };
    assert!(matches!(apply_message(other, 1, &mut snapshots), Ok(false)));
    let foreign = DiagMessage { sequence: 2, body: DiagBody::Done };
    assert!(matches!(apply_message(foreign, 1, &mut snapshots), Ok(false)));
    assert!(snapshots.is_empty());
    let unknown_family = InetDiag {
        family: 1,
        state: TCP_LISTEN,
        inode: 1,
        cookie: [0; 8],
        local_addr: "x".to_string(),
        local_port: 1,
        recv_queue: 0,
        send_queue: 0,
    };
    assert!(snapshot_from_response(unknown_family).is_none());
}

#[test]
fn lengths_are_rounded_up_to_four() {
    assert_eq!([0, 1, 4, 5, 16, 17].map(nlmsg_align), [0, 4, 4, 8, 16, 20]);
}

#[test]
fn the_source_samples_once_per_interval() {
    let mut source = SocketAcceptQueuesSource::new(SocketAcceptQueuesConfig::with_sample_interval(100));
    assert_eq!(source.name(), "socket_accept_queues");
    let key = SocketKey { inode: 9, cookie: 8 };
    let first = source.flush::<String, _>(0, 55, |cache| {
        cache.insert_foreign(key);
        Ok(vec![snapshot_with_key(key)])
    });
    match first {
        QueuesFlush::Events(events) => {
            assert_eq!(events.len(), 1);
            assert_eq!(events[0].timestamp_ns, 55);
            assert_eq!(events[0].socket_cookie, 8);
            assert_eq!(events[0].socket_inode, 9);
            assert_eq!(events[0].ip_version, 4);
            assert_eq!(events[0].protocol, 6);
            assert_eq!(events[0].local_addr, "127.0.0.1");
            assert_eq!(events[0].local_port, 8080);
            assert_eq!(events[0].pending_connections, 1);
            assert_eq!(events[0].backlog_limit, 128);
        }
        other => panic!("expected events, got {other:?}"),
    }
    let second = source.flush::<String, _>(99, 56, |_| panic!("not due"));
    assert!(matches!(second, QueuesFlush::Skipped));
    let third = source.flush(100, 57, |cache| {
        assert!(cache.is_foreign(key));
        Err("down".to_string())
    });
    assert!(matches!(third, QueuesFlush::Failed(e) if e == "down"));
}

#[test]
fn classification_knows_exactly_the_listed_listeners() {
    let own = SocketKey { inode: 1, cookie: 1 };
    let found = SocketKey { inode: 2, cookie: 2 };
    let foreign = SocketKey { inode: 3, cookie: 3 };
    let moved = SocketKey { inode: 4, cookie: 4 };
    let gone = SocketKey { inode: 5, cookie: 5 };
    let mut cache = SocketAcceptQueueCache::new();
    cache.insert_owned(own, "/proc/self/fd/1".to_string());
    cache.insert_owned(moved, "/proc/self/fd/4".to_string());
    cache.insert_owned(gone, "/proc/self/fd/5".to_string());
    let snapshots = classify_process_listeners::<String, _, _>(
        Vec::from([own, found, foreign, moved].map(snapshot_with_key)),
        &mut cache,
        |path| Ok(if path == "/proc/self/fd/1" { Some(1) } else { None }),
        |wanted| {
            assert_eq!(wanted, &HashSet::from([2, 3, 4]));
            Ok(HashMap::from([(2, "/proc/self/fd/9".to_string())]))
        },
    )
    .unwrap();
    assert_same(&snapshots, &[snapshot_with_key(own), snapshot_with_key(found)]);
    for (key, owned) in [(own, true), (found, true), (foreign, false), (moved, false)] {
        assert_eq!(cache.owned(key).is_some(), owned);
        assert_eq!(cache.is_foreign(key), !owned);
    }
    assert!(cache.owned(gone).is_none() && !cache.is_foreign(gone));
}
