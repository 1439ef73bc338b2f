//! The report of a shell command run for the user.

use vstd::prelude::*;
use vstd::string::StrSliceExecFns;

use crate::text::{
    chars_of, owned, push_char, push_str, string_of, trim, trim_chars, trim_end, trim_end_chars,
};

verus! {

/// What the user sees of a finished command: its standard output and then
/// its standard error, each without trailing white space and each only when
/// it holds more than white space, on separate lines; a note when there is
/// nothing to show, or when the command failed.
pub open spec fn command_report(out: Seq<char>, err: Seq<char>, success: bool) -> Seq<char> {
    let a = if trim(out).len() > 0 {
        trim_end(out)
    } else {
        Seq::empty()
    };
    let b = if trim(err).len() > 0 {
        if a.len() > 0 {
            a + seq!['\n'] + trim_end(err)
        } else {
            trim_end(err)
        }
    } else {
        a
    };
    if b.len() == 0 {
        "(no output; command may require admin or produced nothing)"@
    } else if !success {
        b + "\n\n(non-zero exit; command may require admin or flags)"@
    } else {
        b
    }
}

/// Combines a finished command's output streams into one report.
pub fn combine_command_output(stdout: &str, stderr: &str, success: bool) -> (r: String)
    ensures
        r@ == command_report(stdout@, stderr@, success),
{
    let out = chars_of(stdout);
    let err = chars_of(stderr);
    let mut combined = String::new();
    if trim_chars(out.as_slice()).len() > 0 {
        let t = trim_end_chars(out.as_slice());
        combined = string_of(t.as_slice());
    }
    if trim_chars(err.as_slice()).len() > 0 {
        if combined.as_str().unicode_len() > 0 {
            push_char(&mut combined, '\n');
        }
        let t = trim_end_chars(err.as_slice());
        let piece = string_of(t.as_slice());
        push_str(&mut combined, piece.as_str());
    }
    if combined.as_str().unicode_len() == 0 {
        return owned("(no output; command may require admin or produced nothing)");
    }
    if !success {
        push_str(&mut combined, "\n\n(non-zero exit; command may require admin or flags)");
    }
    combined
}

} // verus!
