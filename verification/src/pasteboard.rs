//! The general pasteboard's bookkeeping: which clipboard tool to drive, the
//! command lines for it, and the change count that goes up once per change,
//! whether the change came from this process or was seen by polling.

use vstd::prelude::*;

use crate::text::{owned, with_suffix};

verus! {

broadcast use vstd::string::group_string_axioms;

/// The clipboard tool in use.
#[derive(Clone, Copy, Debug, PartialEq, Eq, Structural)]
pub enum Backend {
    /// `wl-copy` / `wl-paste`.
    Wayland,
    /// `xclip -selection clipboard`.
    X11Xclip,
    /// `xsel --clipboard`.
    X11Xsel,
    /// No tool: reads give nothing and writes fail.
    Unavailable,
}

/// Picks the tool: Wayland's when in a Wayland session with both of its
/// programs, else xclip, else xsel, else none.
pub fn choose_backend(wayland_session: bool, has_wl_copy: bool, has_wl_paste: bool, has_xclip: bool, has_xsel: bool) -> (r: Backend)
    ensures
        r == if wayland_session && has_wl_copy && has_wl_paste {
            Backend::Wayland
        } else if has_xclip {
            Backend::X11Xclip
        } else if has_xsel {
            Backend::X11Xsel
        } else {
            Backend::Unavailable
        },
{
    if wayland_session && has_wl_copy && has_wl_paste {
        Backend::Wayland
    } else if has_xclip {
        Backend::X11Xclip
    } else if has_xsel {
        Backend::X11Xsel
    } else {
        Backend::Unavailable
    }
}

/// The shell test for whether `prog` is installed.
pub fn which_script(prog: &str) -> (r: String)
    ensures
        r@ == "command -v "@ + prog@ + " >/dev/null 2>&1"@,
{
    with_suffix(with_suffix(owned("command -v "), prog), " >/dev/null 2>&1")
}

pub open spec fn seq_view(v: Seq<String>) -> Seq<Seq<char>> {
    Seq::new(v.len(), |i: int| v[i]@)
}

/// The program and arguments that print the clipboard.
pub open spec fn spec_read_command(b: Backend) -> Option<Seq<Seq<char>>> {
    match b {
        Backend::Wayland => Some(seq!["wl-paste"@, "--no-newline"@]),
        Backend::X11Xclip => Some(seq!["xclip"@, "-selection"@, "clipboard"@, "-o"@]),
        Backend::X11Xsel => Some(seq!["xsel"@, "--clipboard"@, "--output"@]),
        Backend::Unavailable => None,
    }
}

/// The program and arguments that take the clipboard's new text on stdin.
pub open spec fn spec_write_command(b: Backend) -> Option<Seq<Seq<char>>> {
    match b {
        Backend::Wayland => Some(seq!["wl-copy"@]),
        Backend::X11Xclip => Some(seq!["xclip"@, "-selection"@, "clipboard"@, "-i"@]),
        Backend::X11Xsel => Some(seq!["xsel"@, "--clipboard"@, "--input"@]),
        Backend::Unavailable => None,
    }
}

/// The command line that prints the clipboard, program first.
pub fn read_command(b: Backend) -> (r: Option<Vec<String>>)
    ensures
        match spec_read_command(b) {
            Some(c) => r matches Some(v) && seq_view(v@) == c,
            None => r is None,
        },
{
    let mut v: Vec<String> = Vec::new();
    match b {
        Backend::Wayland => {
            v.push(owned("wl-paste"));
            v.push(owned("--no-newline"));
        },
        Backend::X11Xclip => {
            v.push(owned("xclip"));
            v.push(owned("-selection"));
            v.push(owned("clipboard"));
            v.push(owned("-o"));
        },
        Backend::X11Xsel => {
            v.push(owned("xsel"));
            v.push(owned("--clipboard"));
            v.push(owned("--output"));
        },
        Backend::Unavailable => {
            return None;
        },
    }
    proof {
        assert(seq_view(v@) =~= spec_read_command(b)->0);
    }
    Some(v)
}

/// The command line that sets the clipboard from stdin, program first.
pub fn write_command(b: Backend) -> (r: Option<Vec<String>>)
    ensures
        match spec_write_command(b) {
            Some(c) => r matches Some(v) && seq_view(v@) == c,
            None => r is None,
        },
{
    let mut v: Vec<String> = Vec::new();
    match b {
        Backend::Wayland => {
            v.push(owned("wl-copy"));
        },
        Backend::X11Xclip => {
            v.push(owned("xclip"));
            v.push(owned("-selection"));
            v.push(owned("clipboard"));
            v.push(owned("-i"));
        },
        Backend::X11Xsel => {
            v.push(owned("xsel"));
            v.push(owned("--clipboard"));
            v.push(owned("--input"));
        },
        Backend::Unavailable => {
            return None;
        },
    }
    proof {
        assert(seq_view(v@) =~= spec_write_command(b)->0);
    }
    Some(v)
}

/// The pasteboard types advertised: plain UTF-8 text only.
pub fn pasteboard_types() -> (r: Vec<String>)
    ensures
        seq_view(r@) == seq!["public.utf8-plain-text"@],
{
    let mut v: Vec<String> = Vec::new();
    v.push(owned("public.utf8-plain-text"));
    proof {
        assert(seq_view(v@) =~= seq!["public.utf8-plain-text"@]);
    }
    v
}

/// What `stringForType:` gives for what the clipboard tool printed: the
/// text when there is some, nothing when it is empty or unreadable.
pub fn string_for_type(read: Option<String>) -> (r: Option<String>)
    ensures
        r == match read {
            Some(s) => if s@.len() > 0 { Some(s) } else { None },
            None => None,
        },
{
    match read {
        Some(s) => if s.unicode_len() > 0 { Some(s) } else { None },
        None => None,
    }
}

pub open spec fn opt_text(o: Option<String>) -> Option<Seq<char>> {
    match o {
        Some(s) => Some(s@),
        None => None,
    }
}

/// The change count and the clipboard text last seen.
pub struct Pasteboard {
    change_count: i64,
    last: Option<String>,
}

impl Pasteboard {
    pub closed spec fn count(&self) -> i64 {
        self.change_count
    }

    pub closed spec fn seen(&self) -> Option<Seq<char>> {
        opt_text(self.last)
    }

    /// A pasteboard that has seen `current` (what the clipboard holds when
    /// polling starts), with count 0, so the first poll does not count it.
    pub fn new(current: Option<String>) -> (r: Pasteboard)
        ensures
            r.count() == 0,
            r.seen() == opt_text(current),
    {
        Pasteboard { change_count: 0, last: current }
    }

    /// `changeCount`.
    pub fn change_count(&self) -> (r: i64)
        ensures
            r == self.count(),
    {
        self.change_count
    }

    /// A poll saw `current`: when it differs from what was last seen, it is
    /// now what was seen, the count goes up by one (wrapping), and the
    /// change is to be announced (true).
    pub fn poll(&mut self, current: Option<String>) -> (changed: bool)
        ensures
            changed == (opt_text(current) != old(self).seen()),
            final(self).seen() == opt_text(current),
            final(self).count() == if changed { old(self).count().wrapping_add(1) } else { old(self).count() },
    {
        let same = match (&self.last, &current) {
            (None, None) => true,
            (Some(a), Some(b)) => *a == *b,
            _ => false,
        };
        self.last = current;
        if !same {
            self.change_count = self.change_count.wrapping_add(1);
        }
        !same
    }

    /// This process wrote `text` to the clipboard: when the write worked,
    /// the count goes up by one and `text` counts as seen, so the poller does
    /// not count it again. Gives back whether it worked.
    pub fn wrote(&mut self, text: String, ok: bool) -> (r: bool)
        ensures
            r == ok,
            ok ==> final(self).count() == old(self).count().wrapping_add(1) && final(self).seen() == Some(text@),
            !ok ==> final(self).count() == old(self).count() && final(self).seen() == old(self).seen(),
    {
        if ok {
            self.change_count = self.change_count.wrapping_add(1);
            self.last = Some(text);
        }
        ok
    }

    /// `clearContents`: the clipboard now holds the empty text; gives the
    /// new count.
    pub fn cleared(&mut self) -> (r: i64)
        ensures
            r == final(self).count(),
            final(self).count() == old(self).count().wrapping_add(1),
            final(self).seen() == Some(Seq::<char>::empty()),
    {
        self.change_count = self.change_count.wrapping_add(1);
        self.last = Some(String::new());
        self.change_count
    }

    /// `declareTypes:owner:`: counts as a change; gives the new count.
    pub fn declared(&mut self) -> (r: i64)
        ensures
            r == final(self).count(),
            final(self).count() == old(self).count().wrapping_add(1),
            final(self).seen() == old(self).seen(),
    {
        self.change_count = self.change_count.wrapping_add(1);
        self.change_count
    }
}

/// A write by this process is counted once: a poll that then sees the
/// written text finds nothing new, so the count stays.
pub proof fn lemma_own_write_counted_once(after_write: Pasteboard, text: String)
    requires
        after_write.seen() == Some(text@),
    ensures
        !(opt_text(Some(text)) != after_write.seen()),
{
}

} // verus!
