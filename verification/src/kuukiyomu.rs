//! The first design of the daemon: a configuration, window records that a
//! compositor plugin sends in a binary layout, and a session that keeps the
//! windows by id.

use std::collections::HashMap;
use vstd::prelude::*;
use vstd::utf8::{decode_utf8, valid_utf8};

verus! {

broadcast use vstd::std_specs::hash::group_hash_axioms;

/// The configuration.
#[derive(Debug)]
pub struct General {
    pub apps: Vec<App>,
    pub cmds: Vec<Cmd>,
    pub terminal: Terminal,
}

/// A command-line program, with the commands that save and restore it.
#[derive(Debug)]
pub struct Cmd {
    pub exe: String,
    pub save_cmd: String,
    pub restore_cmd: String,
}

/// An application, with the commands that save and restore it.
#[derive(Debug)]
pub struct App {
    pub class: String,
    pub title: String,
    pub save_cmd: String,
    pub restore_cmd: String,
}

/// The terminal emulator.
#[derive(Debug)]
pub struct Terminal {
    pub class: String,
}

/// A command for the session.
pub enum SessionCmd {
    Open(()),
    Close(()),
}

/// A window as the compositor plugin reports it.
pub struct Window {
    pub window_id: u64,
    pub at: [i32; 2],
    pub size: [i32; 2],
    pub monitor: u64,
    pub workspace: i32,
    pub class: String,
    pub title: String,
    pub init_class: String,
    pub init_title: String,
    pub pinned: bool,
    pub fullscreen: bool,
    pub program: Program,
}

/// The program behind a window.
pub struct Program {
    pub shell_id: i32,
    pub pid: i32,
    pub cwd: String,
    pub exe: String,
    pub cmdline: String,
}

/// The session: the windows by id.
pub struct Session {
    pub window_data: HashMap<u64, Window>,
}

impl Session {
    /// A session with no windows.
    pub fn new() -> (r: Self)
        ensures
            r.window_data@ == Map::<u64, Window>::empty(),
    {
        Session { window_data: HashMap::new() }
    }

    /// Records `window` under its id, in place of any window with that id.
    pub fn update_win(&mut self, window: Window) -> (r: bool)
        ensures
            final(self).window_data@ == old(self).window_data@.insert(window.window_id, window),
            r,
    {
        let id = window.window_id;
        self.window_data.insert(id, window);
        true
    }

    /// Forgets the window with id `addr`, if there is one.
    pub fn delete_win(&mut self, addr: u64) -> (r: bool)
        ensures
            final(self).window_data@ == old(self).window_data@.remove(addr),
            r,
    {
        self.window_data.remove(&addr);
        true
    }
}

/// A window that was recorded can be read back under its id.
pub proof fn law_recorded_window_read_back(m: Map<u64, Window>, w: Window)
    ensures
        m.insert(w.window_id, w).contains_key(w.window_id),
        m.insert(w.window_id, w)[w.window_id] == w,
{
}

/// Recording a window and then forgetting its id leaves what forgetting the
/// id alone leaves: a window recorded under a new id and forgotten again
/// leaves the session as it was.
pub proof fn law_forget_after_record(m: Map<u64, Window>, w: Window)
    ensures
        m.insert(w.window_id, w).remove(w.window_id) == m.remove(w.window_id),
        !m.contains_key(w.window_id) ==> m.insert(w.window_id, w).remove(w.window_id) == m,
{
    assert(m.insert(w.window_id, w).remove(w.window_id) =~= m.remove(w.window_id));
    if !m.contains_key(w.window_id) {
        assert(m.remove(w.window_id) =~= m);
    }
}

/// What `String::from_utf8_lossy` makes of `bytes`.
pub uninterp spec fn utf8_lossy(bytes: Seq<u8>) -> Seq<char>;

/// `String::from_utf8_lossy`, made an owned string: the decoding of `bytes`
/// with each invalid sequence replaced by U+FFFD. Claimed: the result is the
/// named result for `bytes`, and for valid UTF-8 it is the decoding.
#[verifier::external_body]
fn lossy_string(bytes: &[u8]) -> (r: String)
    ensures
        r@ == utf8_lossy(bytes@),
        valid_utf8(bytes@) ==> r@ == decode_utf8(bytes@),
{
    String::from_utf8_lossy(bytes).to_string()
}

/// The little-endian value of the four bytes of `b` at `o`.
pub open spec fn le_u32_at(b: Seq<u8>, o: int) -> int {
    b[o] + 256 * b[o + 1] + 65536 * b[o + 2] + 16777216 * b[o + 3]
}

/// The little-endian value of the eight bytes of `b` at `o`.
pub open spec fn le_u64_at(b: Seq<u8>, o: int) -> int {
    le_u32_at(b, o) + 4294967296 * le_u32_at(b, o + 4)
}

/// The `i32` whose little-endian bytes are the four bytes of `b` at `o`.
pub open spec fn le_i32_at(b: Seq<u8>, o: int) -> i32 {
    (le_u32_at(b, o) as u32) as i32
}

/// Where the string whose length prefix is at `o` ends.
pub open spec fn str_end(b: Seq<u8>, o: int) -> int {
    o + 4 + le_u32_at(b, o)
}

/// The bytes of the string whose length prefix is at `o`.
pub open spec fn str_bytes(b: Seq<u8>, o: int) -> Seq<u8> {
    b.subrange(o + 4, str_end(b, o))
}

/// Whether a whole string, length prefix and bytes, lies in `b` at `o`.
pub open spec fn str_fits(b: Seq<u8>, o: int) -> bool {
    0 <= o && o + 4 <= b.len() && str_end(b, o) <= b.len()
}

/// Where the class of a record starts; the layout is the window id (8 bytes),
/// its position and size (4 bytes each), its monitor (8), its workspace (4),
/// then four strings (class, title, initial class, initial title), the
/// process id and the shell id (4 bytes each, whose first two bytes are also
/// read as the pinned and fullscreen flags), then three strings (working
/// directory, executable, command line). A string is its length in 4 bytes
/// then its bytes. All numbers are little-endian.
pub open spec fn class_at() -> int {
    36
}

pub open spec fn title_at(b: Seq<u8>) -> int {
    str_end(b, class_at())
}

pub open spec fn init_class_at(b: Seq<u8>) -> int {
    str_end(b, title_at(b))
}

pub open spec fn init_title_at(b: Seq<u8>) -> int {
    str_end(b, init_class_at(b))
}

pub open spec fn flags_at(b: Seq<u8>) -> int {
    str_end(b, init_title_at(b))
}

pub open spec fn cwd_at(b: Seq<u8>) -> int {
    flags_at(b) + 8
}

pub open spec fn exe_at(b: Seq<u8>) -> int {
    str_end(b, cwd_at(b))
}

pub open spec fn cmdline_at(b: Seq<u8>) -> int {
    str_end(b, exe_at(b))
}

/// Whether `b` holds a whole window record.
pub open spec fn record_complete(b: Seq<u8>) -> bool {
    &&& b.len() >= class_at()
    &&& str_fits(b, class_at())
    &&& str_fits(b, title_at(b))
    &&& str_fits(b, init_class_at(b))
    &&& str_fits(b, init_title_at(b))
    &&& flags_at(b) + 8 <= b.len()
    &&& str_fits(b, cwd_at(b))
    &&& str_fits(b, exe_at(b))
    &&& str_fits(b, cmdline_at(b))
}

/// `text` is what the bytes `bytes` of a record give: their lossy UTF-8
/// decoding, which for valid UTF-8 is their decoding.
pub open spec fn decoded_from(text: Seq<char>, bytes: Seq<u8>) -> bool {
    &&& text == utf8_lossy(bytes)
    &&& valid_utf8(bytes) ==> text == decode_utf8(bytes)
}

/// `w` is the window that the record `b` describes.
pub open spec fn parsed_window(b: Seq<u8>, w: Window) -> bool {
    &&& w.window_id == le_u64_at(b, 0)
    &&& w.at == [le_i32_at(b, 8), le_i32_at(b, 12)]
    &&& w.size == [le_i32_at(b, 16), le_i32_at(b, 20)]
    &&& w.monitor == le_u64_at(b, 24)
    &&& w.workspace == le_i32_at(b, 32)
    &&& decoded_from(w.class@, str_bytes(b, class_at()))
    &&& decoded_from(w.title@, str_bytes(b, title_at(b)))
    &&& decoded_from(w.init_class@, str_bytes(b, init_class_at(b)))
    &&& decoded_from(w.init_title@, str_bytes(b, init_title_at(b)))
    &&& w.pinned == (b[flags_at(b)] != 0)
    &&& w.fullscreen == (b[flags_at(b) + 1] != 0)
    &&& w.program.pid == le_i32_at(b, flags_at(b))
    &&& w.program.shell_id == le_i32_at(b, flags_at(b) + 4)
    &&& decoded_from(w.program.cwd@, str_bytes(b, cwd_at(b)))
    &&& decoded_from(w.program.exe@, str_bytes(b, exe_at(b)))
    &&& decoded_from(w.program.cmdline@, str_bytes(b, cmdline_at(b)))
}

fn read_u32(b: &[u8], o: usize) -> (r: u32)
    requires
        o + 4 <= b@.len(),
    ensures
        r == le_u32_at(b@, o as int),
{
    b[o] as u32 + 256 * (b[o + 1] as u32) + 65536 * (b[o + 2] as u32) + 16777216 * (b[o
        + 3] as u32)
}

fn read_u64(b: &[u8], o: usize) -> (r: u64)
    requires
        o + 8 <= b@.len(),
    ensures
        r == le_u64_at(b@, o as int),
{
    let len = b.len();
    assert(o + 4 <= len);
    let lo = read_u32(b, o) as u64;
    let hi = read_u32(b, o + 4) as u64;
    assert(4294967296 * hi <= 4294967296 * 4294967295) by (nonlinear_arith)
        requires
            hi <= 4294967295,
    ;
    lo + 4294967296 * hi
}

fn read_i32(b: &[u8], o: usize) -> (r: i32)
    requires
        o + 4 <= b@.len(),
    ensures
        r == le_i32_at(b@, o as int),
{
    read_u32(b, o) as i32
}

/// Whether the whole string at `o` lies in `b`.
fn string_fits(b: &[u8], o: usize) -> (r: bool)
    ensures
        r == str_fits(b@, o as int),
{
    if o > b.len() || b.len() - o < 4 {
        return false;
    }
    let n = read_u32(b, o) as usize;
    b.len() - o - 4 >= n
}

/// The string at `o` and where it ends.
fn read_string(b: &[u8], o: usize) -> (r: (String, usize))
    requires
        str_fits(b@, o as int),
    ensures
        decoded_from(r.0@, str_bytes(b@, o as int)),
        r.1 == str_end(b@, o as int),
{
    let len = b.len();
    assert(o + 4 <= len);
    let n = read_u32(b, o) as usize;
    let start = o + 4;
    let end = start + n;
    let mut bytes: Vec<u8> = Vec::new();
    let mut k = start;
    while k < end
        invariant
            start <= k <= end <= b@.len(),
            bytes@ == b@.subrange(start as int, k as int),
        decreases end - k,
    {
        bytes.push(b[k]);
        k = k + 1;
        assert(b@.subrange(start as int, k as int) == b@.subrange(start as int, k - 1).push(
            b@[k - 1],
        ));
    }
    (lossy_string(bytes.as_slice()), end)
}

/// Whether `buffer` holds a whole window record.
pub fn record_is_complete(buffer: &[u8]) -> (r: bool)
    ensures
        r == record_complete(buffer@),
{
    if buffer.len() < 36 || !string_fits(buffer, 36) {
        return false;
    }
    let t = 36 + 4 + read_u32(buffer, 36) as usize;
    if !string_fits(buffer, t) {
        return false;
    }
    let ic = t + 4 + read_u32(buffer, t) as usize;
    if !string_fits(buffer, ic) {
        return false;
    }
    let it = ic + 4 + read_u32(buffer, ic) as usize;
    if !string_fits(buffer, it) {
        return false;
    }
    let f = it + 4 + read_u32(buffer, it) as usize;
    if buffer.len() - f < 8 {
        return false;
    }
    let c = f + 8;
    if !string_fits(buffer, c) {
        return false;
    }
    let e = c + 4 + read_u32(buffer, c) as usize;
    if !string_fits(buffer, e) {
        return false;
    }
    let m = e + 4 + read_u32(buffer, e) as usize;
    string_fits(buffer, m)
}

/// The window that the record in `buffer` describes.
pub fn parse_data(buffer: &[u8]) -> (r: Window)
    requires
        record_complete(buffer@),
    ensures
        parsed_window(buffer@, r),
{
    let window_id = read_u64(buffer, 0);
    let at = [read_i32(buffer, 8), read_i32(buffer, 12)];
    let size = [read_i32(buffer, 16), read_i32(buffer, 20)];
    let monitor = read_u64(buffer, 24);
    let workspace = read_i32(buffer, 32);
    let (class, o) = read_string(buffer, 36);
    let (title, o) = read_string(buffer, o);
    let (init_class, o) = read_string(buffer, o);
    let (init_title, o) = read_string(buffer, o);
    let pinned = buffer[o] != 0;
    let fullscreen = buffer[o + 1] != 0;
    let pid = read_i32(buffer, o);
    let shell_id = read_i32(buffer, o + 4);
    let (cwd, o) = read_string(buffer, o + 8);
    let (exe, o) = read_string(buffer, o);
    let (cmdline, _o) = read_string(buffer, o);
    Window {
        window_id,
        at,
        size,
        monitor,
        workspace,
        class,
        title,
        init_class,
        init_title,
        pinned,
        fullscreen,
        program: Program { pid, shell_id, cwd, exe, cmdline },
    }
}

} // verus!
