//! What the process table tells about a window's program: the children of a
//! process and its command line, read from the raw contents of
//! `/proc/<pid>/task/<pid>/children` and `/proc/<pid>/cmdline`.

use vstd::prelude::*;
use crate::text::{
    chars_of, int_decimal, is_ascii_digit, is_white_space, law_decimal_parses_back,
    lemma_int_decimal_chars, lemma_trim_end, lemma_trim_start, nul_to_space, nul_to_space_chars,
    parse_i32, parse_i32_chars, string_of, trim, trim_chars, white_space,
};

verus! {

/// The white-space separated words of `s` that are complete so far, and the
/// word still being read.
pub open spec fn scan_words(s: Seq<char>) -> (Seq<Seq<char>>, Seq<char>)
    decreases s.len(),
{
    if s.len() == 0 {
        (seq![], seq![])
    } else {
        let (done, cur) = scan_words(s.drop_last());
        if is_white_space(s.last()) {
            if cur.len() > 0 {
                (done.push(cur), seq![])
            } else {
                (done, seq![])
            }
        } else {
            (done, cur.push(s.last()))
        }
    }
}

/// The white-space separated words of `s` (what `str::split_whitespace` yields).
pub open spec fn words(s: Seq<char>) -> Seq<Seq<char>> {
    let (done, cur) = scan_words(s);
    if cur.len() > 0 {
        done.push(cur)
    } else {
        done
    }
}

/// The words of `ws` that parse as an `i32`, parsed, in order.
pub open spec fn parsed_pids(ws: Seq<Seq<char>>) -> Seq<i32>
    decreases ws.len(),
{
    if ws.len() == 0 {
        seq![]
    } else {
        parsed_pids(ws.drop_last()) + match parse_i32(ws.last()) {
            Some(v) => seq![v],
            None => seq![],
        }
    }
}

/// The process ids listed in the contents of a `children` file.
pub open spec fn child_pids_of(raw: Seq<char>) -> Seq<i32> {
    parsed_pids(words(raw))
}

/// The command line given by the contents of a `cmdline` file: NUL
/// separators become spaces, surrounding white space goes, and an empty
/// result means that there is none.
pub open spec fn cmdline_of(raw: Seq<char>) -> Option<Seq<char>> {
    let t = trim(nul_to_space(raw));
    if t.len() == 0 {
        None
    } else {
        Some(t)
    }
}

proof fn lemma_parsed_push(ws: Seq<Seq<char>>, w: Seq<char>)
    ensures
        parsed_pids(ws.push(w)) == parsed_pids(ws) + match parse_i32(w) {
            Some(v) => seq![v],
            None => seq![],
        },
{
    assert(ws.push(w).drop_last() == ws);
}

/// The process ids listed in the contents of a `children` file.
pub fn parse_child_pids(raw: &str) -> (r: Vec<i32>)
    ensures
        r@ == child_pids_of(raw@),
{
    let s = chars_of(raw);
    let mut pids: Vec<i32> = Vec::new();
    let mut cur: Vec<char> = Vec::new();
    let mut k: usize = 0;
    while k < s.len()
        invariant
            k <= s.len(),
            s@ == raw@,
            pids@ == parsed_pids(scan_words(s@.take(k as int)).0),
            cur@ == scan_words(s@.take(k as int)).1,
        decreases s.len() - k,
    {
        let c = s[k];
        let ghost prev = s@.take(k as int);
        assert(s@.take(k + 1).drop_last() == prev);
        assert(s@.take(k + 1).last() == c);
        if white_space(c) {
            if cur.len() > 0 {
                proof {
                    lemma_parsed_push(scan_words(prev).0, cur@);
                }
                match parse_i32_chars(&cur) {
                    Some(v) => pids.push(v),
                    None => {},
                }
                cur = Vec::new();
            }
        } else {
            cur.push(c);
        }
        k = k + 1;
    }
    assert(s@.take(s.len() as int) == s@);
    if cur.len() > 0 {
        proof {
            lemma_parsed_push(scan_words(s@).0, cur@);
        }
        match parse_i32_chars(&cur) {
            Some(v) => pids.push(v),
            None => {},
        }
    }
    pids
}

/// The command line given by the contents of a `cmdline` file.
pub fn parse_cmdline(raw: &str) -> (r: Option<String>)
    ensures
        match r {
            Some(c) => cmdline_of(raw@) == Some(c@),
            None => cmdline_of(raw@) is None,
        },
{
    let s = chars_of(raw);
    let t = trim_chars(&nul_to_space_chars(&s));
    if t.len() == 0 {
        None
    } else {
        Some(string_of(&t))
    }
}

/// What was read about one process: the contents of its `children` file and
/// of its `cmdline` file, each `None` where it could not be read.
pub struct ProcEntry {
    pub pid: i32,
    pub children: Option<String>,
    pub cmdline: Option<String>,
}

/// What was read about the processes of the windows, one entry per process.
pub struct ProcTable {
    pub entries: Vec<ProcEntry>,
}

/// The first entry of `entries` about process `pid`.
pub open spec fn entry_for(entries: Seq<ProcEntry>, pid: i32) -> Option<ProcEntry>
    decreases entries.len(),
{
    if entries.len() == 0 {
        None
    } else if entries[0].pid == pid {
        Some(entries[0])
    } else {
        entry_for(entries.drop_first(), pid)
    }
}

/// The processes whose entries classifying the window of process `pid` may
/// read, as far as `table` knows them: the process, its first child, and that
/// child's first child.
pub open spec fn pids_read_for(table: ProcTable, pid: i32) -> Seq<i32> {
    let shells = table.children_of(pid);
    if shells.len() == 0 {
        seq![pid]
    } else {
        let kids = table.children_of(shells[0]);
        if kids.len() == 0 {
            seq![pid, shells[0]]
        } else {
            seq![pid, shells[0], kids[0]]
        }
    }
}

/// The processes whose entries classifying the windows of processes `pids`
/// may read, in order, as far as `table` knows them.
pub open spec fn pids_read(table: ProcTable, pids: Seq<i32>) -> Seq<i32>
    decreases pids.len(),
{
    if pids.len() == 0 {
        seq![]
    } else {
        pids_read(table, pids.drop_last()) + pids_read_for(table, pids.last())
    }
}

/// Whether `table` has no entry about process `pid`.
pub open spec fn unread(table: ProcTable) -> spec_fn(i32) -> bool {
    |pid: i32| entry_for(table.entries@, pid) is None
}

impl ProcTable {
    /// The children of process `pid`; none where nothing could be read.
    pub open spec fn children_of(self, pid: i32) -> Seq<i32> {
        match entry_for(self.entries@, pid) {
            Some(e) => match e.children {
                Some(raw) => child_pids_of(raw@),
                None => seq![],
            },
            None => seq![],
        }
    }

    /// The command line of process `pid`, if one could be read and is not empty.
    pub open spec fn command_line_of(self, pid: i32) -> Option<Seq<char>> {
        match entry_for(self.entries@, pid) {
            Some(e) => match e.cmdline {
                Some(raw) => cmdline_of(raw@),
                None => None,
            },
            None => None,
        }
    }

    fn find(&self, pid: i32) -> (r: Option<usize>)
        ensures
            match r {
                Some(i) => i < self.entries@.len() && entry_for(self.entries@, pid) == Some(
                    self.entries@[i as int],
                ),
                None => entry_for(self.entries@, pid) is None,
            },
    {
        let mut i: usize = 0;
        assert(self.entries@.skip(0) == self.entries@);
        while i < self.entries.len()
            invariant
                i <= self.entries@.len(),
                entry_for(self.entries@, pid) == entry_for(self.entries@.skip(i as int), pid),
            decreases self.entries@.len() - i,
        {
            assert(self.entries@.skip(i as int)[0] == self.entries@[i as int]);
            if self.entries[i].pid == pid {
                return Some(i);
            }
            assert(self.entries@.skip(i as int).drop_first() == self.entries@.skip(i + 1));
            i = i + 1;
        }
        None
    }

    /// The processes whose entries classifying the windows of processes `pids`
    /// may read and that this table has no entry about yet, in order.
    /// Adding an entry for each of them until none is left gives a table with
    /// every entry that classifying reads.
    pub fn missing_pids(&self, pids: &Vec<i32>) -> (r: Vec<i32>)
        ensures
            r@ == pids_read(*self, pids@).filter(unread(*self)),
    {
        broadcast use vstd::seq::Seq::filter_distributes_over_add;

        let mut r: Vec<i32> = Vec::new();
        let mut k: usize = 0;
        while k < pids.len()
            invariant
                k <= pids@.len(),
                r@ == pids_read(*self, pids@.take(k as int)).filter(unread(*self)),
            decreases pids@.len() - k,
        {
            let pid = pids[k];
            let mut list: Vec<i32> = vec![pid];
            let shells = self.get_child_pids(pid);
            if shells.len() > 0 {
                list.push(shells[0]);
                let kids = self.get_child_pids(shells[0]);
                if kids.len() > 0 {
                    list.push(kids[0]);
                }
            }
            assert(list@ == pids_read_for(*self, pid));
            let ghost before = r@;
            let mut j: usize = 0;
            while j < list.len()
                invariant
                    j <= list@.len(),
                    r@ == before + list@.take(j as int).filter(unread(*self)),
                decreases list@.len() - j,
            {
                proof {
                    reveal(Seq::filter);
                    assert(list@.take(j + 1).drop_last() == list@.take(j as int));
                }
                if self.find(list[j]).is_none() {
                    r.push(list[j]);
                }
                j = j + 1;
            }
            assert(list@.take(list@.len() as int) == list@);
            assert(pids@.take(k + 1).drop_last() == pids@.take(k as int));
            k = k + 1;
        }
        assert(pids@.take(pids@.len() as int) == pids@);
        r
    }

    /// The children of process `pid`, in the order the kernel lists them.
    pub fn get_child_pids(&self, pid: i32) -> (r: Vec<i32>)
        ensures
            r@ == self.children_of(pid),
    {
        match self.find(pid) {
            Some(i) => match &self.entries[i].children {
                Some(raw) => parse_child_pids(raw.as_str()),
                None => Vec::new(),
            },
            None => Vec::new(),
        }
    }

    /// The command line of process `pid`.
    pub fn get_cmdline(&self, pid: i32) -> (r: Option<String>)
        ensures
            match r {
                Some(c) => self.command_line_of(pid) == Some(c@),
                None => self.command_line_of(pid) is None,
            },
    {
        match self.find(pid) {
            Some(i) => match &self.entries[i].cmdline {
                Some(raw) => parse_cmdline(raw.as_str()),
                None => None,
            },
            None => None,
        }
    }
}

/// A command line read from a `cmdline` file is what lies between the
/// leading and the trailing white space of the file's contents, each NUL read
/// as a space: it starts at index `a` of the contents, is not empty, holds no
/// NUL, and neither begins nor ends with white space. There is none exactly
/// when the contents are all white space and NULs.
pub proof fn law_cmdline_shape(raw: Seq<char>) -> (a: int)
    ensures
        match cmdline_of(raw) {
            Some(t) => {
                &&& t.len() > 0
                &&& !is_white_space(t[0])
                &&& !is_white_space(t.last())
                &&& forall|k: int| 0 <= k < t.len() ==> #[trigger] t[k] != '\0'
                &&& 0 <= a && a + t.len() <= raw.len()
                &&& forall|k: int|
                    0 <= k < t.len() ==> #[trigger] t[k] == if raw[a + k] == '\0' {
                        ' '
                    } else {
                        raw[a + k]
                    }
                &&& forall|i: int|
                    0 <= i < raw.len() && !(a <= i < a + t.len()) ==> (#[trigger] raw[i] == '\0'
                        || is_white_space(raw[i]))
            },
            None => forall|i: int|
                0 <= i < raw.len() ==> (#[trigger] raw[i] == '\0' || is_white_space(raw[i])),
        },
{
    let s = nul_to_space(raw);
    let a = lemma_trim_start(s);
    let u = s.skip(a);
    let b = lemma_trim_end(u);
    let t = trim(s);
    assert(t == u.take(b));
    assert forall|i: int| 0 <= i < raw.len() implies s[i] == (if raw[i] == '\0' {
        ' '
    } else {
        raw[i]
    }) by {}
    assert forall|i: int| 0 <= i < raw.len() && !(a <= i < a + b) implies (#[trigger] raw[i] == '\0'
        || is_white_space(raw[i])) by {
        if i >= a + b {
            assert(u[i - a] == s[i]);
        }
        if raw[i] == '\0' {
        } else {
            assert(s[i] == raw[i]);
        }
    }
    assert forall|k: int| 0 <= k < t.len() implies #[trigger] t[k] == if raw[a + k] == '\0' {
        ' '
    } else {
        raw[a + k]
    } by {
        assert(t[k] == s[a + k]);
    }
    assert forall|k: int| 0 <= k < t.len() implies #[trigger] t[k] != '\0' by {
        assert(t[k] == s[a + k]);
    }
    if t.len() > 0 {
        assert(t[0] == u[0]);
        assert(t.last() == u[b - 1]);
    }
    a
}

/// The contents of a `children` file as the kernel writes them: each process
/// id in decimal, followed by a space.
pub open spec fn listed_pids(pids: Seq<i32>) -> Seq<char>
    decreases pids.len(),
{
    if pids.len() == 0 {
        seq![]
    } else {
        listed_pids(pids.drop_last()) + int_decimal(pids.last() as int) + seq![' ']
    }
}

proof fn lemma_scan_word_tail(s: Seq<char>, x: Seq<char>)
    requires
        forall|i: int| 0 <= i < x.len() ==> !is_white_space(#[trigger] x[i]),
    ensures
        scan_words(s + x) == (scan_words(s).0, scan_words(s).1 + x),
    decreases x.len(),
{
    if x.len() == 0 {
        assert(s + x =~= s);
        assert(scan_words(s).1 + x =~= scan_words(s).1);
    } else {
        let y = x.drop_last();
        lemma_scan_word_tail(s, y);
        assert((s + x).drop_last() =~= s + y);
        assert((s + x).last() == x.last());
        assert((scan_words(s).1 + y).push(x.last()) =~= scan_words(s).1 + x);
    }
}

/// Reading the process ids back from a `children` file as the kernel writes
/// it gives the listed ids, in order.
pub proof fn law_child_pids_read_back(pids: Seq<i32>)
    ensures
        child_pids_of(listed_pids(pids)) == pids,
{
    lemma_scan_listed(pids);
    lemma_parsed_listed(pids);
}

proof fn lemma_scan_listed(pids: Seq<i32>)
    ensures
        scan_words(listed_pids(pids)) == (pids.map_values(|p: i32| int_decimal(p as int)), Seq::<char>::empty()),
    decreases pids.len(),
{
    if pids.len() > 0 {
        let init = pids.drop_last();
        let p = pids.last();
        let d = int_decimal(p as int);
        lemma_scan_listed(init);
        lemma_int_decimal_chars(p as int);
        assert forall|i: int| 0 <= i < d.len() implies !is_white_space(#[trigger] d[i]) by {
            assert(is_ascii_digit(d[i]) || d[i] == '-');
        }
        let s = listed_pids(init);
        lemma_scan_word_tail(s, d);
        let full = s + d + seq![' '];
        assert(full.drop_last() =~= s + d);
        assert(full.last() == ' ');
        assert(Seq::<char>::empty() + d =~= d);
        assert(pids.map_values(|p: i32| int_decimal(p as int)) =~= init.map_values(
            |p: i32| int_decimal(p as int),
        ).push(d));
    } else {
        assert(pids.map_values(|p: i32| int_decimal(p as int)) =~= Seq::<Seq<char>>::empty());
    }
}

proof fn lemma_parsed_listed(pids: Seq<i32>)
    ensures
        parsed_pids(pids.map_values(|p: i32| int_decimal(p as int))) == pids,
    decreases pids.len(),
{
    if pids.len() > 0 {
        let init = pids.drop_last();
        let ws = pids.map_values(|p: i32| int_decimal(p as int));
        lemma_parsed_listed(init);
        assert(ws.drop_last() =~= init.map_values(|p: i32| int_decimal(p as int)));
        law_decimal_parses_back(pids.last());
        assert(init + seq![pids.last()] =~= pids);
    } else {
        assert(pids.map_values(|p: i32| int_decimal(p as int)) =~= Seq::<Seq<char>>::empty());
    }
}

} // verus!
