use udproxy::meter::Meter;
use udproxy::net::{Endpoint, IpAddress};
use udproxy::ping::{Delay, PingHistory};
use udproxy::server::SocksServer;
use udproxy::upstream::{InnerProto, Traffic};

fn endpoint() -> Endpoint {
    Endpoint { ip: IpAddress::V4(0x7f000001), port: 1080 }
}

#[test]
fn empty_history_scores_worst() {
    let h = PingHistory::new();
    assert_eq!(h.score(), i16::MAX);
    assert_eq!(h.average_delay(), None);
    assert_eq!(h.loss_percent(), 0);
}

#[test]
fn delay_compression_round_trip_is_close() {
    // The tolerance of the 3/4-power grid: within twenty percent over the
    // codomain that the one-byte code can carry.
    for ms in [1u64, 2, 10, 50, 100, 250, 700, 1500, 2021] {
        let back = Delay::from_millis(ms).as_millis() as u64;
        assert!(5 * back >= 4 * ms, "{} decoded to {}", ms, back);
        assert!(5 * back <= 6 * ms, "{} decoded to {}", ms, back);
    }
}

#[test]
fn delay_compression_examples() {
    // 100^(3/4) rounds to 32; 32^(4/3) floors to 101.
    let d = Delay::from_millis(100);
    assert_eq!(d.as_millis(), 101);
    // Sub-millisecond delays clamp to the smallest non-zero code.
    let tiny = Delay::from_millis(0);
    assert_eq!(tiny.as_millis(), 1);
}

#[test]
fn score_is_exact_on_a_known_history() {
    let mut h = PingHistory::new();
    h.add_measurement(None);
    h.add_measurement(Some(Delay::from_millis(100)));
    // Mean delay 101 ms, loss 50%: round((101 + 500) * 10000 / 2500) = 2404.
    assert_eq!(h.loss_percent(), 50);
    assert_eq!(h.average_delay(), Some(101));
    assert_eq!(h.score(), 2404);
}

#[test]
fn score_rises_with_loss_and_delay() {
    let mut low = PingHistory::new();
    low.add_measurement(Some(Delay::from_millis(50)));
    let mut lossy = PingHistory::new();
    lossy.add_measurement(Some(Delay::from_millis(50)));
    lossy.add_measurement(None);
    assert!(low.score() <= lossy.score());

    let mut slow = PingHistory::new();
    slow.add_measurement(Some(Delay::from_millis(900)));
    assert!(low.score() <= slow.score());
}

#[test]
fn history_ring_is_bounded() {
    let mut h = PingHistory::new();
    for _ in 0..250 {
        h.add_measurement(Some(Delay::from_millis(10)));
    }
    assert_eq!(h.len(), 100);
}

#[test]
fn tx_only_needs_a_full_window() {
    let mut m = Meter::new();
    for tx in [0u64, 1, 2, 3, 3] {
        m.add_sample(Traffic { tx_bytes: tx, rx_bytes: 0 });
    }
    // Five samples only: not yet a full window.
    assert!(!m.tx_only());
    m.add_sample(Traffic { tx_bytes: 3, rx_bytes: 0 });
    // TX deltas +,+,+,0,0,0 and no RX delta at all.
    assert!(m.tx_only());
}

#[test]
fn rx_delta_clears_tx_only() {
    let mut m = Meter::new();
    for (tx, rx) in [(0u64, 0u64), (1, 0), (2, 0), (3, 0), (3, 1), (3, 1)] {
        m.add_sample(Traffic { tx_bytes: tx, rx_bytes: rx });
    }
    assert!(!m.tx_only());
}

#[test]
fn idle_window_is_not_tx_only() {
    let mut m = Meter::new();
    for _ in 0..6 {
        m.add_sample(Traffic { tx_bytes: 5, rx_bytes: 0 });
    }
    assert!(!m.tx_only());
}

#[test]
fn rx_observation_clears_trouble() {
    let mut s = SocksServer::new(endpoint(), String::from("up"), InnerProto::Unspecified);
    s.set_troubleness(true);
    assert!(!s.is_healthy());
    s.note_rx(1);
    s.sample_traffic();
    assert!(s.is_healthy());
}

#[test]
fn tx_only_sampling_leaves_trouble_alone() {
    let mut s = SocksServer::new(endpoint(), String::from("up"), InnerProto::Unspecified);
    s.set_troubleness(true);
    s.note_tx(100);
    s.sample_traffic();
    assert!(!s.is_healthy());
}

#[test]
fn trouble_transitions_report_changes_once() {
    let mut s = SocksServer::new(endpoint(), String::from("up"), InnerProto::IPv4);
    assert!(s.set_troubleness(true));
    assert!(!s.set_troubleness(true));
    assert!(s.set_troubleness(false));
    assert!(!s.set_troubleness(false));
}

#[test]
fn record_ping_counts_losses_then_sample() {
    let mut s = SocksServer::new(endpoint(), String::from("up"), InnerProto::IPv4);
    s.record_ping(3, Some(Delay::from_millis(20)));
    assert_eq!(s.status.pings.len(), 4);
    assert_eq!(s.status.pings.loss_percent(), 75);
}
