use runner::logs::format_logs;
use runner::status::{SingleStatusResult, StatusResultValue};

#[test]
fn logs_hold_what_was_written() {
    assert_eq!(format_logs(b"", b""), "");
    assert_eq!(format_logs(b"out\n", b""), "════╡ stdout ╞════\nout\n");
    assert_eq!(format_logs(b"", "é".as_bytes()), "════╡ stderr ╞════\né");
    assert_eq!(
        format_logs(b"out", b"err\n"),
        "════╡ stdout ╞════\nout════╡ stderr ╞════\nerr\n"
    );
}

#[test]
fn commands_pass_or_fail() {
    let passed = SingleStatusResult::of_output(true, b"", b"");
    assert_eq!(passed.value, StatusResultValue::Passed);
    assert_eq!(passed.logs, "");
    let failed = SingleStatusResult::of_output(false, b"", b"oops");
    assert_eq!(failed.value, StatusResultValue::Error);
    assert_eq!(failed.logs, "════╡ stderr ╞════\noops");
}
