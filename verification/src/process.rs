//! Local game processes: which running processes match the games asked for,
//! with their window titles and the UDP ports they listen on.

use vstd::prelude::*;
use vstd::utf8::encode_utf8;
use crate::text::{
    ascii_lowercase, ascii_lowercase_chars, chars_equal, chars_of, contains_chars, contains_seq,
    decode_utf16_lossy, string_from_chars, lowercase, lowercase_chars, trim, trim_chars,
    utf16_lossy,
};

verus! {

/// The text in a UTF-16 buffer up to its first NUL unit (all of it when it
/// has none), decoded with unpaired surrogates replaced.
pub open spec fn wide_text(buf: Seq<u16>) -> Seq<char> {
    utf16_lossy(buf.take(nul_position(buf)))
}

/// The index of the first NUL unit, or the length when there is none.
pub open spec fn nul_position(buf: Seq<u16>) -> int
    decreases buf.len(),
{
    if buf.len() == 0 {
        0
    } else if buf[0] == 0 {
        0
    } else {
        1 + nul_position(buf.drop_first())
    }
}

proof fn lemma_nul_position(buf: Seq<u16>, i: int)
    requires
        0 <= i <= buf.len(),
        forall|k: int| 0 <= k < i ==> buf[k] != 0,
    ensures
        nul_position(buf) == i + nul_position(buf.skip(i)),
    decreases i,
{
    if i > 0 {
        assert(buf.drop_first().skip(i - 1) =~= buf.skip(i));
        lemma_nul_position(buf.drop_first(), i - 1);
    } else {
        assert(buf.skip(0) =~= buf);
    }
}

/// The text of a NUL-terminated UTF-16 buffer, as Windows fills one.
pub fn wchar_to_string(buf: &[u16]) -> (s: String)
    ensures
        s@ == wide_text(buf@),
{
    let mut len: usize = 0;
    while len < buf.len() && buf[len] != 0
        invariant
            len <= buf.len(),
            forall|k: int| 0 <= k < len ==> buf@[k] != 0,
        decreases buf.len() - len,
    {
        len = len + 1;
    }
    proof {
        lemma_nul_position(buf@, len as int);
        if len < buf.len() {
            assert(buf@.skip(len as int)[0] == 0);
        }
    }
    let mut part: Vec<u16> = Vec::new();
    let mut i: usize = 0;
    while i < len
        invariant
            i <= len <= buf.len(),
            part@ == buf@.take(i as int),
        decreases len - i,
    {
        part.push(buf[i]);
        assert(buf@.take(i + 1) =~= buf@.take(i as int).push(buf@[i as int]));
        i = i + 1;
    }
    decode_utf16_lossy(part.as_slice())
}

/// A row of the system's UDP listener table: the local address and port as
/// the table stores them, and the owning process.
#[derive(Clone, Copy)]
pub struct UdpRow {
    pub local_addr: u32,
    pub local_port: u32,
    pub owning_pid: u32,
}

/// The port of a row: the table keeps it in network byte order in the low
/// 16 bits, so its two bytes are swapped.
pub open spec fn row_port(p: u32) -> u16 {
    ((p % 256) * 256 + (p / 256) % 256) as u16
}

/// The ports that process `pid` listens on for any local address
/// (0.0.0.0), in table order; port 0 is left out.
pub open spec fn pid_ports(rows: Seq<UdpRow>, pid: u32) -> Seq<u16>
    decreases rows.len(),
{
    if rows.len() == 0 {
        Seq::empty()
    } else {
        let r = rows.last();
        let rest = pid_ports(rows.drop_last(), pid);
        if r.owning_pid == pid && r.local_addr == 0 && row_port(r.local_port) != 0 {
            rest.push(row_port(r.local_port))
        } else {
            rest
        }
    }
}

/// The UDP ports that process `pid` listens on for any local address.
pub fn udp_ports_by_pid(rows: &[UdpRow], pid: u32) -> (ports: Vec<u16>)
    ensures
        ports@ == pid_ports(rows@, pid),
{
    let mut ports: Vec<u16> = Vec::new();
    let mut i: usize = 0;
    while i < rows.len()
        invariant
            i <= rows.len(),
            ports@ == pid_ports(rows@.take(i as int), pid),
        decreases rows.len() - i,
    {
        let r = rows[i];
        assert(rows@.take(i + 1).drop_last() =~= rows@.take(i as int));
        assert(rows@.take(i + 1).last() == r);
        let port = ((r.local_port % 256) * 256 + (r.local_port / 256) % 256) as u16;
        if r.owning_pid == pid && r.local_addr == 0 && port != 0 {
            ports.push(port);
        }
        i = i + 1;
    }
    assert(rows@.take(rows.len() as int) =~= rows@);
    ports
}

/// The number of rows to read from a UDP table buffer: the count the table
/// reports, but no more than fit after the 4-byte header.
pub fn udp_table_row_count(num_entries: u32, buf_len: usize, row_size: usize) -> (n: usize)
    ensures
        n as int == if (num_entries as int) < (if buf_len >= 4 { buf_len - 4 } else { 0 }) / (
        if row_size >= 1 { row_size as int } else { 1 }) {
            num_entries as int
        } else {
            (if buf_len >= 4 { buf_len - 4 } else { 0 }) / (if row_size >= 1 { row_size as int } else { 1 })
        },
{
    let body: usize = if buf_len >= 4 { buf_len - 4 } else { 0 };
    let size: usize = if row_size >= 1 { row_size } else { 1 };
    let max_rows = body / size;
    if (num_entries as usize) < max_rows {
        num_entries as usize
    } else {
        max_rows
    }
}

/// `ports` in increasing order without repeats.
pub open spec fn sorted_unique_of(r: Seq<u16>, ports: Seq<u16>) -> bool {
    &&& forall|i: int, j: int| 0 <= i < j < r.len() ==> r[i] < r[j]
    &&& forall|x: u16| r.contains(x) <==> ports.contains(x)
}

/// `ports` sorted increasingly with repeats removed.
pub fn sort_dedup_ports(ports: &Vec<u16>) -> (r: Vec<u16>)
    ensures
        sorted_unique_of(r@, ports@),
{
    let mut r: Vec<u16> = Vec::new();
    let mut i: usize = 0;
    while i < ports.len()
        invariant
            i <= ports.len(),
            forall|a: int, b: int| 0 <= a < b < r@.len() ==> r@[a] < r@[b],
            forall|x: u16| r@.contains(x) <==> ports@.take(i as int).contains(x),
        decreases ports.len() - i,
    {
        let x = ports[i];
        let mut p: usize = 0;
        while p < r.len() && r[p] < x
            invariant
                p <= r@.len(),
                forall|k: int| 0 <= k < p ==> r@[k] < x,
            decreases r@.len() - p,
        {
            p = p + 1;
        }
        let ghost before = r@;
        assert(forall|y: u16| before.contains(y) <==> ports@.take(i as int).contains(y));
        if p < r.len() && r[p] == x {
            assert(before.contains(x) && before[p as int] == x);
            assert forall|y: u16| r@.contains(y) <==> before.contains(y) || y == x by {
                assert(before.contains(x));
            }
        } else {
            r.insert(p, x);
            proof {
                assert(r@ =~= before.insert(p as int, x));
                assert forall|a: int, b: int| 0 <= a < b < r@.len() implies r@[a] < r@[b] by {
                    if b == p as int {
                    } else if a == p as int {
                        assert(before[p as int] > x);
                    } else if a < p && b > p {
                    }
                }
                assert forall|y: u16| r@.contains(y) <==> before.contains(y) || y == x by {
                    if r@.contains(y) {
                        let k = choose|k: int| 0 <= k < r@.len() && r@[k] == y;
                        if k < p {
                            assert(before[k] == y);
                        } else if k > p {
                            assert(before[k - 1] == y);
                        }
                    }
                    if before.contains(y) {
                        let k = choose|k: int| 0 <= k < before.len() && before[k] == y;
                        if k < p {
                            assert(r@[k] == y);
                        } else {
                            assert(r@[k + 1] == y);
                        }
                    }
                    if y == x {
                        assert(r@[p as int] == x);
                    }
                }
            }
        }
        proof {
            let t1 = ports@.take(i + 1);
            let t0 = ports@.take(i as int);
            assert(t1 =~= t0.push(x));
            assert forall|y: u16| t1.contains(y) <==> t0.contains(y) || y == x by {
                if t1.contains(y) {
                    let k = choose|k: int| 0 <= k < t1.len() && t1[k] == y;
                    if k < i {
                        assert(t0[k] == y);
                    }
                }
                if t0.contains(y) {
                    let k = choose|k: int| 0 <= k < t0.len() && t0[k] == y;
                    assert(t1[k] == y);
                }
                if y == x {
                    assert(t1[i as int] == x);
                }
            }
            if p < before.len() && before[p as int] == x {
                assert(before.contains(x));
                assert(r@ == before);
            }
            assert forall|y: u16| r@.contains(y) <==> t1.contains(y) by {
                assert(r@.contains(y) <==> before.contains(y) || y == x);
                assert(before.contains(y) <==> t0.contains(y));
            }
        }
        i = i + 1;
    }
    assert(ports@.take(ports.len() as int) =~= ports@);
    r
}


/// The length of a text in UTF-8 bytes, as `str::len` reports it.
pub open spec fn utf8_len(s: Seq<char>) -> usize {
    encode_utf8(s).len() as usize
}

/// Seeing another window never shortens the title kept for a process, and
/// the title kept is one that was offered or the one kept before.
pub proof fn law_title_never_shrinks(m: Map<u32, Seq<char>>, pid: u32, title: Seq<char>, q: u32)
    requires
        m.contains_key(q),
    ensures
        after_title(m, pid, title).contains_key(q),
        utf8_len(m[q]) <= utf8_len(after_title(m, pid, title)[q]),
        after_title(m, pid, title)[q] == m[q] || (q == pid && after_title(m, pid, title)[q]
            == title),
{
}

/// The title of one window of a process.
pub struct WindowTitle {
    pub pid: u32,
    pub title: String,
}

/// The window title kept for each process: the first of its longest
/// non-empty titles, longest in UTF-8 bytes.
pub struct WindowTitleTable {
    entries: Vec<WindowTitle>,
}

pub open spec fn has_pid(s: Seq<WindowTitle>, pid: u32) -> bool {
    exists|i: int| 0 <= i < s.len() && s[i].pid == pid
}

/// The table after a window of process `pid` titled `title` is seen: a
/// title is kept for a non-zero pid when it is not empty and the process has
/// no title yet or only a shorter one.
pub open spec fn after_title(m: Map<u32, Seq<char>>, pid: u32, title: Seq<char>) -> Map<u32, Seq<char>> {
    if pid == 0 || title.len() == 0 {
        m
    } else if m.contains_key(pid) && utf8_len(title) <= utf8_len(m[pid]) {
        m
    } else {
        m.insert(pid, title)
    }
}

impl WindowTitleTable {
    /// No two entries for one process.
    pub closed spec fn wf(&self) -> bool {
        forall|i: int, j: int|
            0 <= i < j < self.entries@.len() ==> self.entries@[i].pid != self.entries@[j].pid
    }

    /// The title kept for each process.
    pub closed spec fn view(&self) -> Map<u32, Seq<char>> {
        Map::new(
            |pid: u32| has_pid(self.entries@, pid),
            |pid: u32|
                self.entries@[choose|i: int| 0 <= i < self.entries@.len() && self.entries@[i].pid == pid].title@,
        )
    }

    proof fn lemma_at(&self, i: int)
        requires
            self.wf(),
            0 <= i < self.entries@.len(),
        ensures
            self.view().contains_key(self.entries@[i].pid),
            self.view()[self.entries@[i].pid] == self.entries@[i].title@,
    {
        let pid = self.entries@[i].pid;
        assert(has_pid(self.entries@, pid));
        let j = choose|j: int| 0 <= j < self.entries@.len() && self.entries@[j].pid == pid;
        if i < j {
            assert(self.entries@[i].pid != self.entries@[j].pid);
        } else if j < i {
            assert(self.entries@[j].pid != self.entries@[i].pid);
        }
    }

    /// An empty table.
    pub fn new() -> (t: WindowTitleTable)
        ensures
            t.wf(),
            t.view() == Map::<u32, Seq<char>>::empty(),
    {
        let t = WindowTitleTable { entries: Vec::new() };
        assert(t.view() =~= Map::<u32, Seq<char>>::empty());
        t
    }

    /// Takes note of a window of process `pid` titled `title`.
    pub fn offer(&mut self, pid: u32, title: String)
        requires
            old(self).wf(),
        ensures
            final(self).wf(),
            final(self).view() == after_title(old(self).view(), pid, title@),
    {
        if pid == 0 || title.as_str().is_empty() {
            return;
        }
        let n = self.entries.len();
        let mut i: usize = 0;
        while i < n && self.entries[i].pid != pid
            invariant
                i <= n == self.entries@.len(),
                forall|k: int| 0 <= k < i ==> self.entries@[k].pid != pid,
            decreases n - i,
        {
            i = i + 1;
        }
        let ghost old_entries = self.entries@;
        let ghost old_view = self.view();
        if i < n {
            proof {
                self.lemma_at(i as int);
            }
            let new_len = title.as_str().len();
            let old_len = self.entries[i].title.as_str().len();
            assert(new_len == utf8_len(title@));
            assert(old_len == utf8_len(self.entries@[i as int].title@));
            if new_len > old_len {
                let ghost tv = title@;
                self.entries.set(i, WindowTitle { pid, title });
                proof {
                    assert forall|a: int, b: int| 0 <= a < b < self.entries@.len() implies self.entries@[a].pid
                        != self.entries@[b].pid by {
                        assert(old_entries[a].pid != old_entries[b].pid);
                    }
                    let nv = self.view();
                    assert forall|q: u32| #[trigger] nv.contains_key(q) == old_view.insert(pid, tv).contains_key(q) by {
                        if has_pid(old_entries, q) {
                            let k = choose|k: int| 0 <= k < old_entries.len() && old_entries[k].pid == q;
                            assert(self.entries@[k].pid == q);
                        }
                        if has_pid(self.entries@, q) {
                            let k = choose|k: int| 0 <= k < self.entries@.len() && self.entries@[k].pid == q;
                            assert(old_entries[k].pid == q);
                        }
                    }
                    assert forall|q: u32| #[trigger] nv.contains_key(q) implies nv[q] == old_view.insert(pid, tv)[q] by {
                        assert(has_pid(self.entries@, q));
                        let k = choose|k: int| 0 <= k < self.entries@.len() && self.entries@[k].pid == q;
                        self.lemma_at(k);
                        if k != i {
                            assert(old_entries[k] == self.entries@[k]);
                            assert(old_entries[k].pid == q);
                            assert(has_pid(old_entries, q));
                            let k2 = choose|k2: int| 0 <= k2 < old_entries.len() && old_entries[k2].pid == q;
                            if k2 != k {
                                if k2 < k {
                                    assert(old_entries[k2].pid != old_entries[k].pid);
                                } else {
                                    assert(old_entries[k].pid != old_entries[k2].pid);
                                }
                            }
                        }
                    }
                    assert(nv =~= old_view.insert(pid, tv));
                }
            } else {
                assert(utf8_len(title@) <= utf8_len(old_view[pid]));
                assert(after_title(old_view, pid, title@) == old_view);
            }
        } else {
            let ghost tv = title@;
            self.entries.push(WindowTitle { pid, title });
            proof {
                assert forall|a: int, b: int| 0 <= a < b < self.entries@.len() implies self.entries@[a].pid
                    != self.entries@[b].pid by {
                    if b < n {
                        assert(old_entries[a].pid != old_entries[b].pid);
                    }
                }
                assert(!has_pid(old_entries, pid));
                let nv = self.view();
                assert forall|q: u32| #[trigger] nv.contains_key(q) == old_view.insert(pid, tv).contains_key(q) by {
                    if has_pid(old_entries, q) {
                        let k = choose|k: int| 0 <= k < old_entries.len() && old_entries[k].pid == q;
                        assert(self.entries@[k].pid == q);
                    }
                    if has_pid(self.entries@, q) && q != pid {
                        let k = choose|k: int| 0 <= k < self.entries@.len() && self.entries@[k].pid == q;
                        assert(old_entries[k].pid == q);
                    }
                    if q == pid {
                        assert(self.entries@[n as int].pid == pid);
                    }
                }
                assert forall|q: u32| #[trigger] nv.contains_key(q) implies nv[q] == old_view.insert(pid, tv)[q] by {
                    assert(has_pid(self.entries@, q));
                    let k = choose|k: int| 0 <= k < self.entries@.len() && self.entries@[k].pid == q;
                    self.lemma_at(k);
                    if k < n {
                        assert(old_entries[k] == self.entries@[k]);
                        assert(has_pid(old_entries, q));
                        let k2 = choose|k2: int| 0 <= k2 < old_entries.len() && old_entries[k2].pid == q;
                        if k2 != k {
                            if k2 < k {
                                assert(old_entries[k2].pid != old_entries[k].pid);
                            } else {
                                assert(old_entries[k].pid != old_entries[k2].pid);
                            }
                        }
                    }
                }
                assert(nv =~= old_view.insert(pid, tv));
            }
        }
    }

    /// The title kept for process `pid`, empty when it has none.
    pub fn title_of(&self, pid: u32) -> (t: String)
        requires
            self.wf(),
        ensures
            t@ == (if self.view().contains_key(pid) { self.view()[pid] } else { Seq::<char>::empty() }),
    {
        let mut i: usize = 0;
        while i < self.entries.len()
            invariant
                self.wf(),
                i <= self.entries@.len(),
                forall|k: int| 0 <= k < i ==> self.entries@[k].pid != pid,
            decreases self.entries@.len() - i,
        {
            if self.entries[i].pid == pid {
                proof {
                    self.lemma_at(i as int);
                }
                return self.entries[i].title.clone();
            }
            i = i + 1;
        }
        String::new()
    }
}


/// A running process as the system lists it: its id, executable file name,
/// the title kept for its windows (empty if none), its image path, and the
/// UDP ports it listens on for any local address.
pub struct RunningProcess {
    pub pid: u32,
    pub exe_file: String,
    pub title: String,
    pub path: String,
    pub udp_ports: Vec<u16>,
}

/// A game process found: its id, lower-cased executable name, window title,
/// image path and listening UDP ports (increasing, without repeats).
pub struct GameProcessInfo {
    pub pid: u32,
    pub exe: String,
    pub title: String,
    pub path: String,
    pub udp_ports: Vec<u16>,
}

/// The executable names to look for: trimmed, ASCII lower-cased, empty ones
/// dropped.
pub open spec fn exe_filters(names: Seq<Seq<char>>) -> Seq<Seq<char>>
    decreases names.len(),
{
    if names.len() == 0 {
        Seq::empty()
    } else {
        let n = ascii_lowercase(trim(names.last()));
        if n.len() > 0 {
            exe_filters(names.drop_last()).push(n)
        } else {
            exe_filters(names.drop_last())
        }
    }
}

/// The window title fragments to look for: trimmed, lower-cased, empty ones
/// dropped.
pub open spec fn title_filters(needles: Seq<Seq<char>>) -> Seq<Seq<char>>
    decreases needles.len(),
{
    if needles.len() == 0 {
        Seq::empty()
    } else {
        let n = lowercase(trim(needles.last()));
        if n.len() > 0 {
            title_filters(needles.drop_last()).push(n)
        } else {
            title_filters(needles.drop_last())
        }
    }
}

/// A process is a game when its lower-cased executable name is one of
/// `exes`, or it has a window title whose lower-cased form contains one of
/// `needles`.
pub open spec fn is_game(exes: Seq<Seq<char>>, needles: Seq<Seq<char>>, exe_file: Seq<char>, title: Seq<char>) -> bool {
    ||| exes.contains(ascii_lowercase(exe_file))
    ||| (title.len() > 0 && exists|k: int|
        0 <= k < needles.len() && contains_seq(lowercase(title), #[trigger] needles[k]))
}

/// The indices of the game processes among the first `n`, in order.
pub open spec fn game_indices(
    procs: Seq<RunningProcess>,
    exes: Seq<Seq<char>>,
    needles: Seq<Seq<char>>,
    n: int,
) -> Seq<int>
    decreases n,
{
    if n <= 0 {
        Seq::empty()
    } else if is_game(exes, needles, procs[n - 1].exe_file@, procs[n - 1].title@) {
        game_indices(procs, exes, needles, n - 1).push(n - 1)
    } else {
        game_indices(procs, exes, needles, n - 1)
    }
}

proof fn lemma_game_indices_members(
    procs: Seq<RunningProcess>,
    exes: Seq<Seq<char>>,
    needles: Seq<Seq<char>>,
    n: int,
    i: int,
)
    requires
        0 <= i < n <= procs.len(),
    ensures
        game_indices(procs, exes, needles, n).contains(i) <==> is_game(
            exes,
            needles,
            procs[i].exe_file@,
            procs[i].title@,
        ),
    decreases n,
{
    let prev = game_indices(procs, exes, needles, n - 1);
    assert forall|t: int| 0 <= t < prev.len() implies #[trigger] prev[t] < n - 1 by {
        lemma_game_indices_below(procs, exes, needles, n - 1, t);
    }
    if i < n - 1 {
        lemma_game_indices_members(procs, exes, needles, n - 1, i);
        if is_game(exes, needles, procs[n - 1].exe_file@, procs[n - 1].title@) {
            let g = prev.push(n - 1);
            if g.contains(i) {
                let t = choose|t: int| 0 <= t < g.len() && g[t] == i;
                assert(t < prev.len());
                assert(prev[t] == i);
            }
            if prev.contains(i) {
                let t = choose|t: int| 0 <= t < prev.len() && prev[t] == i;
                assert(g[t] == i);
            }
        }
    } else {
        if is_game(exes, needles, procs[n - 1].exe_file@, procs[n - 1].title@) {
            let g = prev.push(n - 1);
            assert(g[prev.len() as int] == i);
        } else {
            if prev.contains(i) {
                let t = choose|t: int| 0 <= t < prev.len() && prev[t] == i;
                assert(prev[t] < n - 1);
            }
        }
    }
}

proof fn lemma_game_indices_below(
    procs: Seq<RunningProcess>,
    exes: Seq<Seq<char>>,
    needles: Seq<Seq<char>>,
    n: int,
    t: int,
)
    requires
        0 <= t < game_indices(procs, exes, needles, n).len(),
    ensures
        0 <= game_indices(procs, exes, needles, n)[t] < n,
    decreases n,
{
    if n > 0 {
        let prev = game_indices(procs, exes, needles, n - 1);
        if t < prev.len() {
            lemma_game_indices_below(procs, exes, needles, n - 1, t);
        }
    }
}

/// A process is selected when its executable name matches a name filter,
/// whatever the title fragments are, and when its non-empty title contains
/// a fragment, whatever the name filters are; no other process is.
pub proof fn law_game_selection_is_union(
    procs: Seq<RunningProcess>,
    exes: Seq<Seq<char>>,
    needles: Seq<Seq<char>>,
    i: int,
)
    requires
        0 <= i < procs.len(),
    ensures
        exes.contains(ascii_lowercase(procs[i].exe_file@)) ==> game_indices(
            procs,
            exes,
            needles,
            procs.len() as int,
        ).contains(i),
        (procs[i].title@.len() > 0 && exists|k: int|
            0 <= k < needles.len() && contains_seq(lowercase(procs[i].title@), #[trigger] needles[k]))
            ==> game_indices(procs, exes, needles, procs.len() as int).contains(i),
        game_indices(procs, exes, needles, procs.len() as int).contains(i) ==> (exes.contains(
            ascii_lowercase(procs[i].exe_file@),
        ) || (procs[i].title@.len() > 0 && exists|k: int|
            0 <= k < needles.len() && contains_seq(lowercase(procs[i].title@), #[trigger] needles[k]))),
{
    lemma_game_indices_members(procs, exes, needles, procs.len() as int, i);
}

/// The plain values of character vectors.
pub open spec fn char_views(v: Seq<Vec<char>>) -> Seq<Seq<char>> {
    v.map_values(|c: Vec<char>| c@)
}

/// The filters, each trimmed and lower-cased as `lower` does, empty ones
/// dropped.
fn normalize_filters(names: &Vec<String>, unicode: bool) -> (r: Vec<Vec<char>>)
    ensures
        char_views(r@) == if unicode {
            title_filters(names@.map_values(|s: String| s@))
        } else {
            exe_filters(names@.map_values(|s: String| s@))
        },
{
    let ghost nv = names@.map_values(|s: String| s@);
    let mut r: Vec<Vec<char>> = Vec::new();
    let mut i: usize = 0;
    while i < names.len()
        invariant
            i <= names.len(),
            nv == names@.map_values(|s: String| s@),
            char_views(r@) == if unicode {
                title_filters(nv.take(i as int))
            } else {
                exe_filters(nv.take(i as int))
            },
        decreases names.len() - i,
    {
        let ghost t = nv.take(i + 1);
        assert(t.drop_last() =~= nv.take(i as int));
        assert(t.last() == names@[i as int]@);
        let cs = chars_of(names[i].as_str());
        let trimmed = trim_chars(&cs);
        let lowered = if unicode {
            lowercase_chars(&trimmed)
        } else {
            ascii_lowercase_chars(&trimmed)
        };
        let ghost before = r@;
        if lowered.len() > 0 {
            let ghost lv = lowered@;
            r.push(lowered);
            assert(char_views(r@) =~= char_views(before).push(lv));
        }
        i = i + 1;
    }
    assert(nv.take(names.len() as int) =~= nv);
    r
}

/// Whether `x` is one of `list`.
pub fn list_contains(list: &Vec<Vec<char>>, x: &Vec<char>) -> (b: bool)
    ensures
        b == char_views(list@).contains(x@),
{
    let ghost lv = char_views(list@);
    let mut i: usize = 0;
    while i < list.len()
        invariant
            i <= list.len(),
            lv == char_views(list@),
            forall|k: int| 0 <= k < i ==> lv[k] != x@,
        decreases list.len() - i,
    {
        if chars_equal(&list[i], x) {
            assert(lv[i as int] == x@);
            return true;
        }
        i = i + 1;
    }
    false
}

/// Whether `text` contains one of `needles`.
pub fn contains_any(text: &Vec<char>, needles: &Vec<Vec<char>>) -> (b: bool)
    ensures
        b == exists|k: int|
            0 <= k < needles@.len() && contains_seq(text@, #[trigger] char_views(needles@)[k]),
{
    let ghost nv = char_views(needles@);
    let mut i: usize = 0;
    while i < needles.len()
        invariant
            i <= needles.len(),
            nv == char_views(needles@),
            forall|k: int| 0 <= k < i ==> !contains_seq(text@, #[trigger] nv[k]),
        decreases needles.len() - i,
    {
        if contains_chars(text, &needles[i]) {
            assert(contains_seq(text@, nv[i as int]));
            return true;
        }
        i = i + 1;
    }
    false
}

/// The game processes among `processes`: those whose executable name is one
/// of `exe_names` or whose window title contains one of `window_needles`.
/// With no usable name and no usable fragment, none is.
pub fn list_game_processes(
    exe_names: Vec<String>,
    window_needles: Vec<String>,
    processes: Vec<RunningProcess>,
) -> (out: Vec<GameProcessInfo>)
    ensures
        ({
            let exes = exe_filters(exe_names@.map_values(|s: String| s@));
            let needles = title_filters(window_needles@.map_values(|s: String| s@));
            let idx = game_indices(processes@, exes, needles, processes@.len() as int);
            if exes.len() == 0 && needles.len() == 0 {
                out@.len() == 0
            } else {
                &&& out@.len() == idx.len()
                &&& forall|t: int|
                    0 <= t < out@.len() ==> {
                        let p = processes@[idx[t]];
                        &&& (#[trigger] out@[t]).pid == p.pid
                        &&& out@[t].exe@ == ascii_lowercase(p.exe_file@)
                        &&& out@[t].title@ == p.title@
                        &&& out@[t].path@ == p.path@
                        &&& sorted_unique_of(out@[t].udp_ports@, p.udp_ports@)
                    }
            }
        }),
{
    let exes = normalize_filters(&exe_names, false);
    let needles = normalize_filters(&window_needles, true);
    let ghost ev = char_views(exes@);
    let ghost nv = char_views(needles@);
    let mut out: Vec<GameProcessInfo> = Vec::new();
    if exes.len() == 0 && needles.len() == 0 {
        return out;
    }
    let mut i: usize = 0;
    while i < processes.len()
        invariant
            i <= processes.len(),
            ev == char_views(exes@),
            nv == char_views(needles@),
            out@.len() == game_indices(processes@, ev, nv, i as int).len(),
            forall|t: int|
                0 <= t < out@.len() ==> {
                    let p = processes@[game_indices(processes@, ev, nv, i as int)[t]];
                    &&& (#[trigger] out@[t]).pid == p.pid
                    &&& out@[t].exe@ == ascii_lowercase(p.exe_file@)
                    &&& out@[t].title@ == p.title@
                    &&& out@[t].path@ == p.path@
                    &&& sorted_unique_of(out@[t].udp_ports@, p.udp_ports@)
                },
            forall|t: int| 0 <= t < game_indices(processes@, ev, nv, i as int).len() ==> 0 <= #[trigger] game_indices(processes@, ev, nv, i as int)[t] < i,
        decreases processes.len() - i,
    {
        let p = &processes[i];
        let exe_cs = chars_of(p.exe_file.as_str());
        let exe = ascii_lowercase_chars(&exe_cs);
        let exe_hit = list_contains(&exes, &exe);
        let title_hit = if p.title.as_str().is_empty() {
            false
        } else {
            let title_cs = chars_of(p.title.as_str());
            let lt_cs = lowercase_chars(&title_cs);
            contains_any(&lt_cs, &needles)
        };
        let ghost prev_idx = game_indices(processes@, ev, nv, i as int);
        let ghost before = out@;
        assert((exe_hit || title_hit) == is_game(ev, nv, processes@[i as int].exe_file@, processes@[i as int].title@));
        if exe_hit || title_hit {
            let info = GameProcessInfo {
                pid: p.pid,
                exe: string_from_chars(&exe),
                title: p.title.clone(),
                path: p.path.clone(),
                udp_ports: sort_dedup_ports(&p.udp_ports),
            };
            out.push(info);
            proof {
                let idx = game_indices(processes@, ev, nv, i + 1);
                assert(idx == prev_idx.push(i as int));
                assert forall|t: int| 0 <= t < out@.len() implies {
                    let p = processes@[idx[t]];
                    &&& (#[trigger] out@[t]).pid == p.pid
                    &&& out@[t].exe@ == ascii_lowercase(p.exe_file@)
                    &&& out@[t].title@ == p.title@
                    &&& out@[t].path@ == p.path@
                    &&& sorted_unique_of(out@[t].udp_ports@, p.udp_ports@)
                } by {
                    if t < before.len() {
                        assert(out@[t] == before[t]);
                        assert(idx[t] == prev_idx[t]);
                    }
                }
            }
        } else {
            assert(game_indices(processes@, ev, nv, i + 1) == prev_idx);
        }
        i = i + 1;
    }
    out
}

} // verus!
