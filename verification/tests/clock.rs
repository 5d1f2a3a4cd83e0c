use runner::clock::{time_of_day, SECONDS_PER_DAY};

#[test]
fn times_of_day_are_shown() {
    assert_eq!(time_of_day(0), "00:00:00");
    assert_eq!(time_of_day(45_296), "12:34:56");
    assert_eq!(time_of_day(SECONDS_PER_DAY - 1), "23:59:59");
    assert_eq!(time_of_day(1_600_000_000), "12:26:40");
    assert_eq!(time_of_day(-1), "23:59:59");
    assert_eq!(time_of_day(i64::MIN), time_of_day(i64::MIN + SECONDS_PER_DAY));
}

#[test]
fn times_of_day_agree_with_the_calendar() {
    for timestamp in [0, 1, 59, 60, 3_599, 3_600, 951_782_400, 1_619_797_523, 4_102_444_799] {
        let moment = chrono::DateTime::from_timestamp(timestamp, 0).unwrap();
        assert_eq!(time_of_day(timestamp), moment.format("%H:%M:%S").to_string());
    }
}
