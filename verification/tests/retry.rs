use pr0dl::retry::{busy, next_delay, success};

#[test]
fn busy_status_codes() {
    for status in 100..1000u16 {
        assert_eq!(busy(status), status == 429 || status / 100 == 5, "{status}");
        assert_eq!(success(status), status / 100 == 2, "{status}");
    }
}

#[test]
fn status_codes_agree_with_the_http_types() {
    for status in 100..1000u16 {
        let code = reqwest::StatusCode::from_u16(status).unwrap();
        let retried = code == reqwest::StatusCode::TOO_MANY_REQUESTS || code.is_server_error();
        assert_eq!(busy(status), retried, "{status}");
        assert_eq!(success(status), code.is_success(), "{status}");
    }
}

#[test]
fn delays_double_up_to_the_cap() {
    let mut delay = 5;
    let mut delays = Vec::new();
    for _ in 0..8 {
        delays.push(delay);
        delay = next_delay(delay, 300);
    }
    assert_eq!(delays, vec![5, 10, 20, 40, 80, 160, 300, 300]);
    assert_eq!(next_delay(60, 120), 120);
    assert_eq!(next_delay(60, 121), 120);
    assert_eq!(next_delay(u64::MAX, 7), 7);
    assert_eq!(next_delay(0, 7), 0);
}
