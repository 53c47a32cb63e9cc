//! Where the commands report their progress.
use vstd::prelude::*;

verus! {

/// A sink for progress messages: a status line, a success, an error.
pub trait Reporter: Send + Sync {
    /// Reports work in progress.
    fn status(&self, msg: &str);
    /// Reports that something finished well.
    fn success(&self, msg: &str);
    /// Reports a failure.
    fn error(&self, msg: &str);
}

/// The spinner frame shown for the `k`-th status message, `k < 10`.
pub open spec fn frame_spec(k: nat) -> Seq<char> {
    if k == 0 {
        "⠋"@
    } else if k == 1 {
        "⠙"@
    } else if k == 2 {
        "⠹"@
    } else if k == 3 {
        "⠸"@
    } else if k == 4 {
        "⠼"@
    } else if k == 5 {
        "⠴"@
    } else if k == 6 {
        "⠦"@
    } else if k == 7 {
        "⠧"@
    } else if k == 8 {
        "⠇"@
    } else {
        "⠏"@
    }
}

/// The spinner frame for message number `k`; the frames repeat every ten.
pub fn spinner_frame(k: usize) -> (r: &'static str)
    ensures
        r@ == frame_spec((k % 10) as nat),
{
    let i = k % 10;
    if i == 0 {
        "⠋"
    } else if i == 1 {
        "⠙"
    } else if i == 2 {
        "⠹"
    } else if i == 3 {
        "⠸"
    } else if i == 4 {
        "⠼"
    } else if i == 5 {
        "⠴"
    } else if i == 6 {
        "⠦"
    } else if i == 7 {
        "⠧"
    } else if i == 8 {
        "⠇"
    } else {
        "⠏"
    }
}

/// A reporter line: on a terminal it clears the current line first and ends
/// the line only when `end`; elsewhere it is a plain line.
pub open spec fn line_text(prefix: Seq<char>, msg: Seq<char>, is_tty: bool, end: bool) -> Seq<char> {
    if is_tty {
        "\r\x1b[2K"@ + prefix + "  "@ + msg + if end { "\n"@ } else { ""@ }
    } else {
        prefix + "  "@ + msg + "\n"@
    }
}

/// Writes a reporter line.
pub fn reporter_line(prefix: &str, msg: &str, is_tty: bool, end: bool) -> (r: String)
    ensures
        r@ == line_text(prefix@, msg@, is_tty, end),
{
    let mut s = if is_tty { crate::text::to_string("\r\x1b[2K") } else { String::new() };
    crate::text::push_str(&mut s, prefix);
    crate::text::push_str(&mut s, "  ");
    crate::text::push_str(&mut s, msg);
    proof {
        reveal_strlit("");
    }
    if !is_tty || end {
        crate::text::push_str(&mut s, "\n");
    } else {
        assert(s@ + ""@ == s@);
    }
    s
}

/// The count of status messages shown so far, which picks the next frame.
pub struct Spinner {
    pub frame: usize,
}

impl Spinner {
    /// A spinner at its first frame.
    pub fn new() -> (r: Spinner)
        ensures
            r.frame == 0,
    {
        Spinner { frame: 0 }
    }

    /// The line for a status message, which takes the next frame.
    pub fn status_line(&mut self, msg: &str, is_tty: bool) -> (r: String)
        ensures
            r@ == line_text(frame_spec((old(self).frame % 10) as nat), msg@, is_tty, false),
            final(self).frame == (if old(self).frame == usize::MAX { 0 } else { old(self).frame + 1 }),
    {
        let f = spinner_frame(self.frame);
        self.frame = if self.frame == usize::MAX { 0 } else { self.frame + 1 };
        reporter_line(f, msg, is_tty, false)
    }
}

} // verus!
