//! The record of one finished run of a command. Starting the process,
//! streaming its output and timing it happen outside the library; what the
//! library fixes is how the captured run becomes a record.

use vstd::prelude::*;
use vstd::utf8::{decode_utf8, valid_utf8};
use crate::storage::{
    canonical, command_hash_of, format_command, hash_command, lemma_hash_of_canonical,
    CommandExecution, CommandRecord, Timestamp,
};
use crate::text::{push_str, signed_decimal, signed_digits};

verus! {

/// The text of captured output bytes, invalid UTF-8 sequences replaced by
/// U+FFFD, as `String::from_utf8_lossy` decodes it.
pub uninterp spec fn lossy_text(bytes: Seq<u8>) -> Seq<char>;

/// `String::from_utf8_lossy(bytes)` as an owned string. Claimed: the text is
/// the named function `lossy_text` of the bytes, and valid UTF-8 decodes
/// to its characters unchanged (as the documentation of `from_utf8_lossy`
/// states).
#[verifier::external_body]
fn lossy(bytes: &[u8]) -> (r: String)
    ensures
        r@ == lossy_text(bytes@),
        valid_utf8(bytes@) ==> r@ == decode_utf8(bytes@),
{
    String::from_utf8_lossy(bytes).to_string()
}

/// The identifier of a run: the command's hash, `_`, the run's second.
pub open spec fn record_id_of(hash: Seq<char>, secs: i64) -> Seq<char> {
    hash + "_"@ + signed_digits(secs as int)
}

/// Runs commands and records what they did.
pub struct CommandExecutor;

impl CommandExecutor {
    /// The record of a finished run of `command`: its canonical form and
    /// hash, the identifier made of hash and second, the exit code (`-1`
    /// when the process gave none), no short code yet, and the captured
    /// output decoded as text, marked as shown live.
    pub fn record_run(
        command: &str,
        stdout: &[u8],
        stderr: &[u8],
        exit_code: Option<i32>,
        duration_ms: u64,
        working_dir: String,
        timestamp: Timestamp,
    ) -> (r: CommandExecution)
        ensures
            r.record.command@ == canonical(command@),
            r.record.command_hash@ == command_hash_of(command@),
            r.record.timestamp == timestamp,
            r.record.working_dir == working_dir,
            r.record.exit_code == match exit_code {
                Some(c) => c,
                None => -1i32,
            },
            r.record.duration_ms == duration_ms,
            r.record.record_id@ == record_id_of(command_hash_of(command@), timestamp.secs),
            r.record.short_code is None,
            r.stdout@ == lossy_text(stdout@),
            r.stderr@ == lossy_text(stderr@),
            r.stdout_path is None,
            r.stderr_path is None,
            r.streamed_stdout,
            r.streamed_stderr,
    {
        let formatted = format_command(command);
        let command_hash = hash_command(formatted.as_str());
        proof {
            lemma_hash_of_canonical(command@);
        }
        let mut record_id = command_hash.clone();
        push_str(&mut record_id, "_");
        let secs = signed_decimal(timestamp.secs);
        push_str(&mut record_id, secs.as_str());
        let code = match exit_code {
            Some(c) => c,
            None => -1,
        };
        let record = CommandRecord {
            command: formatted,
            command_hash,
            timestamp,
            working_dir,
            exit_code: code,
            duration_ms,
            record_id,
            short_code: None,
        };
        CommandExecution {
            record,
            stdout: lossy(stdout),
            stderr: lossy(stderr),
            stdout_path: None,
            stderr_path: None,
            streamed_stdout: true,
            streamed_stderr: true,
        }
    }
}

} // verus!
