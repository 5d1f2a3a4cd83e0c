//! The logs that a command leaves.

use vstd::prelude::*;
use vstd::string::*;
use vstd::utf8::*;

use crate::status::{SingleStatusResult, StatusResultValue};

verus! {

/// One stream under its title; nothing for an empty stream.
pub open spec fn section(title: Seq<char>, stream: Seq<u8>) -> Seq<char> {
    if stream.len() == 0 {
        Seq::empty()
    } else {
        title + decode_utf8(stream)
    }
}

/// The logs of a command that wrote `stdout` and `stderr`.
pub open spec fn logs_text(stdout: Seq<u8>, stderr: Seq<u8>) -> Seq<char> {
    section("════╡ stdout ╞════\n"@, stdout) + section("════╡ stderr ╞════\n"@, stderr)
}

/// `std::str::from_utf8` takes valid UTF-8, and nothing else, to the text that it encodes.
#[verifier::external_body]
fn utf8_text(bytes: &[u8]) -> (text: Option<&str>)
    ensures
        text is Some <==> valid_utf8(bytes@),
        text matches Some(text) ==> text.spec_bytes() == bytes@,
{
    std::str::from_utf8(bytes).ok()
}

/// Appends one stream under its title to the logs.
fn append_section(logs: &mut String, title: &str, stream: &[u8])
    requires
        valid_utf8(stream@),
    ensures
        final(logs)@ == old(logs)@ + section(title@, stream@),
{
    if stream.len() > 0 {
        logs.append(title);
        if let Some(text) = utf8_text(stream) {
            proof {
                encode_utf8_decode_utf8(text@);
            }
            logs.append(text);
        }
    }
    assert(logs@ =~= old(logs)@ + section(title@, stream@));
}

/// The text of what a command wrote to its two streams.
pub fn format_logs(stdout: &[u8], stderr: &[u8]) -> (logs: String)
    requires
        valid_utf8(stdout@),
        valid_utf8(stderr@),
    ensures
        logs@ == logs_text(stdout@, stderr@),
{
    let mut logs = String::new();
    append_section(&mut logs, "════╡ stdout ╞════\n", stdout);
    append_section(&mut logs, "════╡ stderr ╞════\n", stderr);
    assert(logs@ =~= logs_text(stdout@, stderr@));
    logs
}

impl SingleStatusResult {
    /// Whether this is the result of a command that has terminated, successfully or not, after
    /// writing to its two streams.
    pub open spec fn tells_of(self, success: bool, stdout: Seq<u8>, stderr: Seq<u8>) -> bool {
        &&& self.logs@ == logs_text(stdout, stderr)
        &&& self.value == if success {
            StatusResultValue::Passed
        } else {
            StatusResultValue::Error
        }
    }

    /// The result of a command that has terminated, successfully or not, and of which the two
    /// streams were collected.
    pub fn of_output(success: bool, stdout: &[u8], stderr: &[u8]) -> (result: SingleStatusResult)
        requires
            valid_utf8(stdout@),
            valid_utf8(stderr@),
        ensures
            result.value == if success {
                StatusResultValue::Passed
            } else {
                StatusResultValue::Error
            },
            result.logs@ == logs_text(stdout@, stderr@),
            result.tells_of(success, stdout@, stderr@),
    {
        let logs = format_logs(stdout, stderr);
        if success {
            SingleStatusResult { value: StatusResultValue::Passed, logs }
        } else {
            SingleStatusResult { value: StatusResultValue::Error, logs }
        }
    }
}

/// A command leaves logs exactly if it wrote to one of its streams.
pub proof fn logs_are_empty_if_nothing_was_written(stdout: Seq<u8>, stderr: Seq<u8>)
    ensures
        logs_text(stdout, stderr).len() == 0 <==> stdout.len() == 0 && stderr.len() == 0,
{
    reveal_strlit("════╡ stdout ╞════\n");
    reveal_strlit("════╡ stderr ╞════\n");
}

/// The logs of a command are those of what it wrote to stdout, followed by those of what it wrote
/// to stderr. What it wrote to a stream stands in full under the title of that stream.
pub proof fn logs_hold_both_streams(stdout: Seq<u8>, stderr: Seq<u8>)
    ensures
        logs_text(stdout, stderr) == logs_text(stdout, Seq::empty()) + logs_text(
            Seq::empty(),
            stderr,
        ),
        stdout.len() > 0 ==> logs_text(stdout, Seq::empty()) == "════╡ stdout ╞════\n"@
            + decode_utf8(stdout),
        stderr.len() > 0 ==> logs_text(Seq::empty(), stderr) == "════╡ stderr ╞════\n"@
            + decode_utf8(stderr),
{
    let none = Seq::<u8>::empty();
    assert(logs_text(stdout, none) =~= section("════╡ stdout ╞════\n"@, stdout));
    assert(logs_text(none, stderr) =~= section("════╡ stderr ╞════\n"@, stderr));
}

/// A command has passed exactly if it was successful, and failed exactly if it was not, whatever it
/// wrote; and it leaves logs exactly if it wrote something.
pub proof fn success_alone_decides(
    result: SingleStatusResult,
    success: bool,
    stdout: Seq<u8>,
    stderr: Seq<u8>,
)
    requires
        result.tells_of(success, stdout, stderr),
    ensures
        success <==> result.value == StatusResultValue::Passed,
        !success <==> result.value == StatusResultValue::Error,
        result.logs@.len() > 0 <==> stdout.len() + stderr.len() > 0,
        result.logs@ == logs_text(stdout, Seq::empty()) + logs_text(Seq::empty(), stderr),
{
    logs_are_empty_if_nothing_was_written(stdout, stderr);
    logs_hold_both_streams(stdout, stderr);
}

} // verus!
