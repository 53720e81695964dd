use pktscope_core::monitor::correlate::{FlowMeta, FlowMetas};
use pktscope_core::flow::FlowKey;
use pktscope_core::ipc::live::{same_key, LiveState};
use pktscope_core::ipc::protocol::ConnectionDto;
use pktscope_core::net::{IpAddr, Ipv4Addr};

fn key(port: u16) -> FlowKey {
    FlowKey::new(
        IpAddr::V4(Ipv4Addr::new(10, 0, 0, 1)),
        port,
        IpAddr::V4(Ipv4Addr::new(93, 184, 216, 34)),
        443,
        6,
    )
}

fn row(id: u64, last_seen_ms: i64) -> ConnectionDto {
    ConnectionDto {
        id,
        process: "curl".into(),
        pid: Some(1),
        dest_name: "example.com".into(),
        remote_ip: "93.184.216.34".into(),
        remote_port: 443,
        local_port: 5000,
        protocol: 6,
        country: None,
        asn: None,
        as_org: None,
        bytes_up: 0,
        bytes_down: 0,
        first_seen_ms: 0,
        last_seen_ms,
        outbound: true,
    }
}

#[test]
fn test_live_state_rows_by_flow() {
    let mut live = LiveState::new();
    live.put(key(5000), row(1, 10));
    live.put(key(5001), row(2, 30));
    live.put(key(5002), row(3, 20));
    assert_eq!(live.get(&key(5001)).unwrap().id, 2);
    assert!(live.get(&key(6000)).is_none());
    // Replacing a flow's row keeps one row per flow.
    live.put(key(5000), row(1, 40));
    let ids: Vec<u64> = live.snapshot().iter().map(|c| c.id).collect();
    assert_eq!(ids, vec![1, 2, 3]);
    assert_eq!(live.remove(&key(5001)).unwrap().id, 2);
    assert!(live.remove(&key(5001)).is_none());
    let ids: Vec<u64> = live.snapshot().iter().map(|c| c.id).collect();
    assert_eq!(ids, vec![1, 3]);
    assert!(LiveState::default().snapshot().is_empty());
}

#[test]
fn test_same_key() {
    assert!(same_key(&key(1), &key(1)));
    assert!(!same_key(&key(1), &key(2)));
    let reversed = FlowKey::new(
        IpAddr::V4(Ipv4Addr::new(93, 184, 216, 34)),
        443,
        IpAddr::V4(Ipv4Addr::new(10, 0, 0, 1)),
        1,
        6,
    );
    assert!(same_key(&key(1), &reversed));
}

#[test]
fn test_flow_ids_are_fixed_at_the_first_packet() {
    let mut metas = FlowMetas::new();
    // The first flow takes id 1 and the direction of its first packet.
    assert_eq!(metas.meta_for(key(50000), true), (1, true));
    // A second flow takes the next id.
    assert_eq!(metas.meta_for(key(50001), false), (2, false));
    // Later packets keep the id and direction fixed at the first one.
    assert_eq!(metas.meta_for(key(50000), false), (1, true));
    metas.set_rows(&key(50001), Some(7), 9);
    assert_eq!(
        metas.remove(&key(50001)),
        Some(FlowMeta { id: 2, outbound: false, process_id: Some(7), dest_id: Some(9) })
    );
    assert_eq!(metas.remove(&key(50001)), None);
    // A flow seen again after it closed is a new flow.
    assert_eq!(metas.meta_for(key(50001), true), (3, true));
}
