use tic::scrape::collect_stats;
use tic::scrape::render_json;
use tic::scrape::render_plain;
use tic::scrape::response;
use tic::scrape::thousandths_string;
use tic::scrape::ScrapeTimer;
use tic::data::meters::adev_key_of;
use tic::data::meters::count_key_of;
use tic::data::meters::percentile_key_of;
use tic::text::decimal_string;
use tic::text::digit_str;
use tic::text::push_decimal;

fn name(s: &str) -> String {
    s.to_string()
}

#[test]
fn decimal_notation() {
    assert_eq!(decimal_string(0), "0");
    assert_eq!(decimal_string(7), "7");
    assert_eq!(decimal_string(10), "10");
    assert_eq!(decimal_string(1_234_567_890), "1234567890");
    assert_eq!(decimal_string(u64::MAX), "18446744073709551615");
    for digit in 0..10u64 {
        assert_eq!(digit_str(digit), digit.to_string());
    }
    let mut text = name("n=");
    push_decimal(&mut text, 405);
    assert_eq!(text, "n=405");
}

#[test]
fn keys_of_meters() {
    assert_eq!(count_key_of(&name("req")), "req_count");
    assert_eq!(percentile_key_of(&name("lat"), &name("p50")), "lat_p50_nanoseconds");
    assert_eq!(adev_key_of(&name("lat"), 3), "lat_tau_3_adev");
    assert_eq!(adev_key_of(&name(""), 300), "_tau_300_adev");
}

#[test]
fn plain_form() {
    assert_eq!(render_plain(&vec![]), "");
    assert_eq!(
        render_plain(&vec![(name("a"), name("1")), (name("b"), name("2.5"))]),
        "a 1\nb 2.5\n"
    );
}

#[test]
fn json_form() {
    assert_eq!(render_json(&vec![]), "{}");
    assert_eq!(render_json(&vec![(name("a"), name("1"))]), "{\"a\":1}");
    assert_eq!(
        render_json(&vec![(name("a"), name("1")), (name("b"), name("2.5"))]),
        "{\"a\":1,\"b\":2.5}"
    );
}

#[test]
fn response_by_path() {
    let integers = vec![(name("x_count"), 12u64), (name("y_count"), 0u64)];
    let fractions = vec![(name("x_tau_1_adev"), 500u64)];
    assert_eq!(
        collect_stats(&integers, &fractions),
        vec![
            (name("x_count"), name("12")),
            (name("y_count"), name("0")),
            (name("x_tau_1_adev"), name("0.500"))
        ]
    );
    let plain = "x_count 12\ny_count 0\nx_tau_1_adev 0.500\n";
    let json = "{\"x_count\":12,\"y_count\":0,\"x_tau_1_adev\":0.500}";
    assert_eq!(response(&name("/vars"), &integers, &fractions), plain);
    assert_eq!(response(&name("/metrics"), &integers, &fractions), plain);
    assert_eq!(response(&name("/"), &integers, &fractions), json);
    assert_eq!(response(&name("/vars/"), &integers, &fractions), json);
    assert_eq!(response(&name(""), &integers, &fractions), json);
}

#[test]
fn thousandths_as_decimal_fractions() {
    assert_eq!(thousandths_string(0), "0.000");
    assert_eq!(thousandths_string(5), "0.005");
    assert_eq!(thousandths_string(40), "0.040");
    assert_eq!(thousandths_string(999), "0.999");
    assert_eq!(thousandths_string(1_000), "1.000");
    assert_eq!(thousandths_string(14_142), "14.142");
    assert_eq!(thousandths_string(u64::MAX), "18446744073709551.615");
}

#[test]
fn scrape_timer_comes_due_every_tenth_of_a_second() {
    let mut timer = ScrapeTimer::start(1_000, 1_000_000_000);
    assert_eq!(timer.interval, 100_000_000);
    assert_eq!(timer.next, 100_001_000);
    assert!(!timer.due(100_001_000));
    assert_eq!(timer.next, 100_001_000);
    assert!(timer.due(100_001_001));
    assert_eq!(timer.next, 200_001_000);
    assert!(!timer.due(150_000_000));
    let mut late = ScrapeTimer::start(u64::MAX - 5, 1_000);
    assert_eq!(late.next, u64::MAX);
    assert!(!late.due(u64::MAX));
}
