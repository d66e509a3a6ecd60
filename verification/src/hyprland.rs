//! The command that asks Hyprland to reopen a window where it was.

use vstd::prelude::*;
use crate::text::{chars_of, int_decimal, push_all, push_int, string_of};
use crate::window::Window;

verus! {

/// `[workspace W silent; float; size X, Y; move A, B] CMD`: run the window's
/// command line on its workspace, silently, floating, with its size and at
/// its position.
pub open spec fn open_command_text(w: Window) -> Seq<char> {
    "[workspace "@ + int_decimal(w.workspace as int) + " silent; float; size "@ + int_decimal(
        w.size.0 as int,
    ) + ", "@ + int_decimal(w.size.1 as int) + "; move "@ + int_decimal(w.at.0 as int) + ", "@
        + int_decimal(w.at.1 as int) + "] "@ + w.program.cmdline@
}

/// The command that reopens `window` where it was.
pub fn open_command(window: &Window) -> (r: String)
    ensures
        r@ == open_command_text(*window),
{
    let mut c: Vec<char> = Vec::new();
    push_all(&mut c, &chars_of("[workspace "));
    push_int(&mut c, window.workspace as i64);
    push_all(&mut c, &chars_of(" silent; float; size "));
    push_int(&mut c, window.size.0 as i64);
    push_all(&mut c, &chars_of(", "));
    push_int(&mut c, window.size.1 as i64);
    push_all(&mut c, &chars_of("; move "));
    push_int(&mut c, window.at.0 as i64);
    push_all(&mut c, &chars_of(", "));
    push_int(&mut c, window.at.1 as i64);
    push_all(&mut c, &chars_of("] "));
    push_all(&mut c, &chars_of(window.program.cmdline.as_str()));
    string_of(&c)
}

/// The command that reopens a window depends on its workspace, size,
/// position and command line alone: two windows that agree on those get the
/// same command, whether or not either floats, whatever else differs.
pub proof fn law_open_command_depends_on_placement(a: Window, b: Window)
    requires
        a.workspace == b.workspace,
        a.size == b.size,
        a.at == b.at,
        a.program.cmdline@ == b.program.cmdline@,
    ensures
        open_command_text(a) == open_command_text(b),
{
}

/// The command that reopens a window begins by placing it on its workspace,
/// silently and floating, before its size: `[workspace W silent; float; size `;
/// it ends by running the window's command line: `] CMD`.
pub proof fn law_open_command_shape(w: Window)
    ensures
        ({
            let t = open_command_text(w);
            let head = "[workspace "@ + int_decimal(w.workspace as int) + " silent; float; size "@;
            let tail = "] "@ + w.program.cmdline@;
            &&& head.len() + tail.len() <= t.len()
            &&& t.take(head.len() as int) == head
            &&& t.skip(t.len() - tail.len()) == tail
        }),
{
    let t = open_command_text(w);
    let head = "[workspace "@ + int_decimal(w.workspace as int) + " silent; float; size "@;
    let tail = "] "@ + w.program.cmdline@;
    let mid = int_decimal(w.size.0 as int) + ", "@ + int_decimal(w.size.1 as int) + "; move "@
        + int_decimal(w.at.0 as int) + ", "@ + int_decimal(w.at.1 as int);
    assert(t =~= head + mid + tail);
    assert(t.take(head.len() as int) =~= head);
    assert(t.skip(t.len() - tail.len()) =~= tail);
}

} // verus!
