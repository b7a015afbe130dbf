//! Process list management: sorting, filtering, selection and scrolling.

use vstd::prelude::*;
use vstd::utf8::{encode_utf8, decode_utf8, is_char_boundary, encode_utf8_decode_utf8};
use crate::order::{
    lowercase, to_lowercase, name_key, lowered_names, lower_names, sort_indices, sorted_by,
    is_ascii_chars, ascii_lower, ascii_upper, lemma_sorted_no_duplicates, lemma_sorted_unique,
    lemma_sorted_keys, lex_order, cpu_order,
};
use crate::platform::ProcessInfo;
use crate::text::{decimal, push_decimal, pad_left, pad_right, push_padded_left, push_padded_right};

verus! {

/// Sort column for the process list.
#[derive(Debug, Clone, Copy, PartialEq, Eq, Structural)]
pub enum SortColumn {
    Cpu,
    Memory,
    Pid,
    Name,
}

/// The column after `c` in the cycle CPU, memory, PID, name.
pub open spec fn next_column(c: SortColumn) -> SortColumn {
    match c {
        SortColumn::Cpu => SortColumn::Memory,
        SortColumn::Memory => SortColumn::Pid,
        SortColumn::Pid => SortColumn::Name,
        SortColumn::Name => SortColumn::Cpu,
    }
}

/// The column header of `c`.
pub open spec fn column_label(c: SortColumn) -> Seq<char> {
    match c {
        SortColumn::Cpu => "CPU%"@,
        SortColumn::Memory => "MEM"@,
        SortColumn::Pid => "PID"@,
        SortColumn::Name => "NAME"@,
    }
}

/// The column a configuration word names, compared in lowercase: "memory"
/// or "mem", "pid", "name"; anything else means CPU.
pub open spec fn column_named(lower: Seq<char>) -> SortColumn {
    if lower == "memory"@ || lower == "mem"@ {
        SortColumn::Memory
    } else if lower == "pid"@ {
        SortColumn::Pid
    } else if lower == "name"@ {
        SortColumn::Name
    } else {
        SortColumn::Cpu
    }
}

fn same_text(a: &String, b: &str) -> (r: bool)
    ensures
        r == (a@ == b@),
{
    let b = b.to_owned();
    *a == b
}

impl SortColumn {
    /// Cycles to the next sort column.
    pub fn next(self) -> (r: Self)
        ensures
            r == next_column(self),
    {
        match self {
            SortColumn::Cpu => SortColumn::Memory,
            SortColumn::Memory => SortColumn::Pid,
            SortColumn::Pid => SortColumn::Name,
            SortColumn::Name => SortColumn::Cpu,
        }
    }

    /// The column header label.
    pub fn label(self) -> (r: &'static str)
        ensures
            r@ == column_label(self),
    {
        match self {
            SortColumn::Cpu => "CPU%",
            SortColumn::Memory => "MEM",
            SortColumn::Pid => "PID",
            SortColumn::Name => "NAME",
        }
    }

    /// Parses a configuration word, ignoring case; unknown words mean CPU.
    pub fn from_str(s: &str) -> (r: Self)
        ensures
            r == column_named(lowercase(s@)),
            is_ascii_chars(s@) ==> r == column_named(ascii_lower(s@)),
    {
        let lower = to_lowercase(s);
        if same_text(&lower, "memory") || same_text(&lower, "mem") {
            SortColumn::Memory
        } else if same_text(&lower, "pid") {
            SortColumn::Pid
        } else if same_text(&lower, "name") {
            SortColumn::Name
        } else {
            SortColumn::Cpu
        }
    }
}

/// The sort column cycles CPU, memory, PID, name and back, so four steps
/// come back to the start and no step stays put.
pub proof fn lemma_next_column_cycle(c: SortColumn)
    ensures
        next_column(next_column(next_column(next_column(c)))) == c,
        next_column(c) != c,
        next_column(SortColumn::Cpu) == SortColumn::Memory,
        next_column(SortColumn::Memory) == SortColumn::Pid,
        next_column(SortColumn::Pid) == SortColumn::Name,
        next_column(SortColumn::Name) == SortColumn::Cpu,
{
}

/// Every column label is ASCII, and read back as a configuration word it
/// names its own column (`from_str(c.label()) == c`).
pub proof fn lemma_label_names_column(c: SortColumn)
    ensures
        is_ascii_chars(column_label(c)),
        column_named(ascii_lower(column_label(c))) == c,
{
    reveal_strlit("CPU%");
    reveal_strlit("MEM");
    reveal_strlit("PID");
    reveal_strlit("NAME");
    reveal_strlit("cpu%");
    reveal_strlit("mem");
    reveal_strlit("pid");
    reveal_strlit("name");
    reveal_strlit("memory");
    let l = column_label(c);
    assert(is_ascii_chars(l));
    match c {
        SortColumn::Cpu => {
            assert(ascii_lower(l) =~= "cpu%"@);
            assert("cpu%"@[0] != "name"@[0]);
            assert("cpu%"@[0] != "pid"@[0]);
            assert("cpu%"@[0] != "mem"@[0]);
        },
        SortColumn::Memory => {
            assert(ascii_lower(l) =~= "mem"@);
        },
        SortColumn::Pid => {
            assert(ascii_lower(l) =~= "pid"@);
            assert("pid"@[0] != "mem"@[0]);
            assert("pid"@ != "mem"@);
        },
        SortColumn::Name => {
            assert(ascii_lower(l) =~= "name"@);
            assert("name"@ != "pid"@);
        },
    }
}

/// The title line of the process view: the filtered and total counts, the
/// sort column and direction, and the filter ("-" when there is none).
pub open spec fn title_text(filtered: nat, total: nat, col: SortColumn, ascending: bool, filter: Seq<char>) -> Seq<char> {
    "  Processes ("@ + decimal(filtered) + "/"@ + decimal(total) + ")  Sort: "@ + column_label(col) + " "@
        + (if ascending { "^"@ } else { "v"@ }) + "  Filter: "@
        + (if filter.len() == 0 { "-"@ } else { filter })
}

/// `needle` occurs in `hay` as a contiguous run.
pub open spec fn contains_bytes(hay: Seq<u8>, needle: Seq<u8>) -> bool {
    exists|i: int| 0 <= i && i + needle.len() <= hay.len()
        && #[trigger] hay.subrange(i, i + needle.len()) == needle
}

/// A process matches a lowercase filter when the filter is empty, or occurs
/// in the process's lowercase name or in its decimal PID.
pub open spec fn matches_filter(p: ProcessInfo, lower_filter: Seq<char>) -> bool {
    ||| lower_filter.len() == 0
    ||| contains_bytes(name_key(p), encode_utf8(lower_filter))
    ||| contains_bytes(encode_utf8(decimal(p.pid as nat)), encode_utf8(lower_filter))
}

fn bytes_contain(hay: &[u8], needle: &[u8]) -> (r: bool)
    ensures
        r == contains_bytes(hay@, needle@),
{
    if needle.len() == 0 {
        assert(hay@.subrange(0int, 0int + needle@.len()) =~= needle@);
        return true;
    }
    if needle.len() > hay.len() {
        return false;
    }
    let last = hay.len() - needle.len();
    let mut i: usize = 0;
    while i <= last
        invariant
            last == hay@.len() - needle@.len(),
            0 < needle@.len() <= hay@.len(),
            hay@.len() <= usize::MAX,
            i <= last + 1,
            forall|k: int| 0 <= k < i ==> #[trigger] hay@.subrange(k, k + needle@.len()) != needle@,
        decreases last + 1 - i,
    {
        let mut j: usize = 0;
        let mut same = true;
        while j < needle.len()
            invariant
                i <= last,
                last == hay@.len() - needle@.len(),
                0 < needle@.len() <= hay@.len(),
                hay@.len() <= usize::MAX,
                j <= needle@.len(),
                same == (forall|m: int| 0 <= m < j ==> hay@[i + m] == needle@[m]),
            decreases needle@.len() - j,
        {
            if hay[i + j] != needle[j] {
                same = false;
            }
            j = j + 1;
        }
        if same {
            assert(hay@.subrange(i as int, i + needle@.len()) =~= needle@);
            return true;
        }
        proof {
            if hay@.subrange(i as int, i + needle@.len()) == needle@ {
                assert forall|m: int| 0 <= m < needle@.len() implies hay@[i + m] == needle@[m] by {
                    assert(hay@.subrange(i as int, i + needle@.len())[m] == hay@[i + m]);
                }
            }
        }
        i = i + 1;
    }
    proof {
        assert forall|k: int| 0 <= k && k + needle@.len() <= hay@.len()
            implies #[trigger] hay@.subrange(k, k + needle@.len()) != needle@ by {
            assert(k <= last);
        }
    }
    false
}

/// The indices of the processes that match a lowercase filter, ascending.
fn filter_indices(procs: &Vec<ProcessInfo>, lowered: &Vec<String>, lower_filter: &String) -> (r: Vec<usize>)
    requires
        lowered_names(procs@, lowered@),
    ensures
        forall|i: int| 0 <= i < r@.len() ==> #[trigger] r@[i] < procs@.len(),
        forall|i: int, j: int| 0 <= i < j < r@.len() ==> #[trigger] r@[i] < #[trigger] r@[j],
        forall|x: usize| r@.contains(x) <==> (x < procs@.len() && matches_filter(procs@[x as int], lower_filter@)),
{
    let needle = lower_filter.as_str().as_bytes();
    let empty = lower_filter.as_str().is_empty();
    let mut r: Vec<usize> = Vec::new();
    let mut i: usize = 0;
    while i < procs.len()
        invariant
            lowered_names(procs@, lowered@),
            needle@ == encode_utf8(lower_filter@),
            empty == (lower_filter@.len() == 0),
            i <= procs@.len(),
            forall|k: int| 0 <= k < r@.len() ==> #[trigger] r@[k] < i,
            forall|a: int, b: int| 0 <= a < b < r@.len() ==> #[trigger] r@[a] < #[trigger] r@[b],
            forall|x: usize| r@.contains(x) <==> (x < i && matches_filter(procs@[x as int], lower_filter@)),
        decreases procs@.len() - i,
    {
        let keep = if empty {
            true
        } else {
            let name = lowered[i].as_str().as_bytes();
            if bytes_contain(name, needle) {
                true
            } else {
                let mut pid_text = String::new();
                push_decimal(&mut pid_text, procs[i].pid as u64);
                assert(pid_text@ =~= decimal(procs@[i as int].pid as nat));
                bytes_contain(pid_text.as_str().as_bytes(), needle)
            }
        };
        assert(keep == matches_filter(procs@[i as int], lower_filter@));
        let ghost before = r@;
        if keep {
            r.push(i);
        }
        proof {
            assert forall|x: usize| r@.contains(x) <==> (x < i + 1 && matches_filter(procs@[x as int], lower_filter@)) by {
                if r@.contains(x) {
                    let w = choose|w: int| 0 <= w < r@.len() && r@[w] == x;
                    if w < before.len() {
                        assert(before.contains(x));
                    }
                }
                if x < i && matches_filter(procs@[x as int], lower_filter@) {
                    assert(before.contains(x));
                    let w = choose|w: int| 0 <= w < before.len() && before[w] == x;
                    assert(r@[w] == x);
                }
                if x == i && keep {
                    assert(r@[before.len() as int] == x);
                }
            }
        }
        i = i + 1;
    }
    r
}

/// The ordered view a process list shows: exactly the indices of the
/// processes matching the lowercase filter, ordered by the sort column in the
/// sort direction, equal processes keeping the order they came in.
pub open spec fn is_sorted_view(
    procs: Seq<ProcessInfo>,
    view: Seq<usize>,
    lower_filter: Seq<char>,
    col: SortColumn,
    ascending: bool,
) -> bool {
    &&& sorted_by(procs, col, ascending, true, view)
    &&& forall|x: usize| view.contains(x) <==> (x < procs.len() && matches_filter(procs[x as int], lower_filter))
}

/// The number of processes matching a lowercase filter.
pub open spec fn matching_count(procs: Seq<ProcessInfo>, lower_filter: Seq<char>) -> nat
    decreases procs.len(),
{
    if procs.len() == 0 {
        0
    } else {
        matching_count(procs.drop_last(), lower_filter)
            + if matches_filter(procs.last(), lower_filter) { 1nat } else { 0nat }
    }
}

/// The indices below `n` of the processes matching a lowercase filter.
pub open spec fn matching_indices(procs: Seq<ProcessInfo>, lower_filter: Seq<char>, n: nat) -> Set<usize> {
    Set::new(|x: usize| (x as int) < n && matches_filter(procs[x as int], lower_filter))
}

proof fn lemma_matching_indices_count(procs: Seq<ProcessInfo>, lower_filter: Seq<char>, n: nat)
    requires
        n <= procs.len(),
        procs.len() <= usize::MAX,
    ensures
        matching_indices(procs, lower_filter, n).finite(),
        matching_indices(procs, lower_filter, n).len() == matching_count(procs.take(n as int), lower_filter),
    decreases n,
{
    let set = matching_indices(procs, lower_filter, n);
    if n == 0 {
        assert(set =~= Set::<usize>::empty());
        assert(procs.take(0) =~= Seq::<ProcessInfo>::empty());
    } else {
        let m = (n - 1) as nat;
        lemma_matching_indices_count(procs, lower_filter, m);
        let prev = matching_indices(procs, lower_filter, m);
        let last = m as usize;
        assert(procs.take(n as int).drop_last() =~= procs.take(m as int));
        assert(procs.take(n as int).last() == procs[m as int]);
        assert(!prev.contains(last));
        if matches_filter(procs[m as int], lower_filter) {
            assert(set =~= prev.insert(last));
        } else {
            assert(set =~= prev);
        }
    }
}

/// A sorted view lists exactly the matching processes, each once, so it is
/// as long as the number of processes matching the filter.
pub proof fn lemma_view_counts_matches(
    procs: Seq<ProcessInfo>,
    view: Seq<usize>,
    lower_filter: Seq<char>,
    col: SortColumn,
    ascending: bool,
)
    requires
        is_sorted_view(procs, view, lower_filter, col, ascending),
        procs.len() <= usize::MAX,
    ensures
        view.len() == matching_count(procs, lower_filter),
{
    lemma_sorted_no_duplicates(procs, col, ascending, true, view);
    view.unique_seq_to_set();
    lemma_matching_indices_count(procs, lower_filter, procs.len());
    assert(view.to_set() =~= matching_indices(procs, lower_filter, procs.len()));
    assert(procs.take(procs.len() as int) =~= procs);
}

/// With an empty filter every process matches.
pub proof fn lemma_empty_filter_matches_all(procs: Seq<ProcessInfo>)
    ensures
        matching_count(procs, Seq::<char>::empty()) == procs.len(),
    decreases procs.len(),
{
    if procs.len() > 0 {
        lemma_empty_filter_matches_all(procs.drop_last());
    }
}

/// Two views sorted the same way over the same processes and filter hold
/// the same indices, so they have the same length.
proof fn lemma_same_listing_same_len(s: Seq<usize>, t: Seq<usize>)
    requires
        s.no_duplicates(),
        t.no_duplicates(),
        forall|x: usize| s.contains(x) <==> t.contains(x),
    ensures
        s.len() == t.len(),
{
    s.unique_seq_to_set();
    t.unique_seq_to_set();
    assert(s.to_set() =~= t.to_set());
}

/// Where the scroll offset moves so that `selected` is on screen: up to the
/// selection, down until it is the last visible row, or unchanged.
pub open spec fn scroll_to_show(selected: nat, scroll: nat, rows: nat) -> nat {
    if selected < scroll {
        selected
    } else if selected >= scroll + rows {
        (selected + 1 - rows) as nat
    } else {
        scroll
    }
}

/// The selection once the view has `len` rows: kept if in range, else the
/// last row, or 0 for an empty view.
pub open spec fn clamp_selection(selected: nat, len: nat) -> nat {
    if len == 0 {
        0
    } else if selected < len {
        selected
    } else {
        (len - 1) as nat
    }
}

/// The sort marker a column header carries: " ^" or " v" on the sort
/// column, by direction, and nothing on the others.
pub open spec fn sort_marker(col: SortColumn, sort_column: SortColumn, ascending: bool) -> Seq<char> {
    if col == sort_column {
        if ascending { " ^"@ } else { " v"@ }
    } else {
        ""@
    }
}

/// The process table header: PID right-aligned in 7 characters, NAME
/// left-aligned in 20, CPU% right-aligned in 6, MEM right-aligned in 10,
/// STATE left-aligned in 6, then USER; the sort column's header carries the
/// sort marker.
pub open spec fn header_text(sort_column: SortColumn, ascending: bool) -> Seq<char> {
    pad_left("PID"@ + sort_marker(SortColumn::Pid, sort_column, ascending), 7)
        + " "@ + pad_right("NAME"@ + sort_marker(SortColumn::Name, sort_column, ascending), 20)
        + " "@ + pad_left("CPU%"@, 6) + sort_marker(SortColumn::Cpu, sort_column, ascending)
        + " "@ + pad_left("MEM"@, 10) + sort_marker(SortColumn::Memory, sort_column, ascending)
        + " "@ + pad_right("STATE"@, 6)
        + " "@ + "USER"@
}

fn marker(col: SortColumn, sort_column: SortColumn, ascending: bool) -> (r: &'static str)
    ensures
        r@ == sort_marker(col, sort_column, ascending),
{
    if col == sort_column {
        if ascending { " ^" } else { " v" }
    } else {
        ""
    }
}

/// Where a name longer than `max_len` bytes is cut: two bytes early, to
/// leave room for "..", when `max_len` allows it.
pub open spec fn truncation_point(max_len: nat) -> nat {
    if max_len > 2 { (max_len - 2) as nat } else { max_len }
}

/// `s` shortened to at most `max_len` bytes: unchanged if it fits, else
/// its first `max_len - 2` bytes followed by "..", or, when `max_len` is 2 or
/// less, its first `max_len` bytes.
pub open spec fn truncated(s: Seq<char>, max_len: nat) -> Seq<char> {
    let bytes = encode_utf8(s);
    if bytes.len() <= max_len {
        s
    } else if max_len > 2 {
        decode_utf8(bytes.subrange(0, max_len - 2)) + ".."@
    } else {
        decode_utf8(bytes.subrange(0, max_len as int))
    }
}

/// Encoding two character sequences one after the other gives the two
/// encodings one after the other.
proof fn lemma_encode_utf8_concat(a: Seq<char>, b: Seq<char>)
    ensures
        encode_utf8(a + b) == encode_utf8(a) + encode_utf8(b),
    decreases a.len(),
{
    if a.len() > 0 {
        assert((a + b).drop_first() =~= a.drop_first() + b);
        lemma_encode_utf8_concat(a.drop_first(), b);
        assert(encode_utf8(a + b) =~= encode_utf8(a) + encode_utf8(b));
    } else {
        assert(a + b =~= b);
        assert(encode_utf8(a) + encode_utf8(b) =~= encode_utf8(b));
    }
}

/// Truncates a string to `max_len` bytes, adding ".." if truncated. The cut
/// must fall on a character boundary. The result is never longer than
/// `max_len` bytes.
pub fn truncate_name(s: &str, max_len: usize) -> (r: String)
    requires
        encode_utf8(s@).len() > max_len ==> is_char_boundary(encode_utf8(s@), truncation_point(max_len as nat) as int),
    ensures
        r@ == truncated(s@, max_len as nat),
        encode_utf8(r@).len() <= max_len,
        encode_utf8(s@).len() <= max_len ==> r@ == s@,
        encode_utf8(s@).len() > max_len && max_len > 2 ==> {
            &&& encode_utf8(r@).len() == max_len
            &&& encode_utf8(r@).subrange(0, max_len - 2) == encode_utf8(s@).subrange(0, max_len - 2)
            &&& r@.len() >= 2 && r@.subrange(r@.len() - 2, r@.len() as int) == ".."@
        },
        encode_utf8(s@).len() > max_len && max_len <= 2
            ==> encode_utf8(r@) == encode_utf8(s@).subrange(0, max_len as int),
{
    if s.as_bytes().len() <= max_len {
        s.to_owned()
    } else {
        let cut = if max_len > 2 { max_len - 2 } else { max_len };
        let (head, _) = s.split_at(cut);
        proof {
            encode_utf8_decode_utf8(head@);
            assert(encode_utf8(head@) == encode_utf8(s@).subrange(0, cut as int));
        }
        let mut r = head.to_owned();
        if max_len > 2 {
            r.append("..");
            assert(r@ == head@ + ".."@);
            assert(decode_utf8(encode_utf8(s@).subrange(0, max_len - 2)) == head@);
            proof {
                reveal_strlit("..");
                lemma_encode_utf8_concat(head@, ".."@);
                let dots = ".."@;
                assert(dots.drop_first().drop_first() =~= Seq::<char>::empty());
                assert(encode_utf8(dots.drop_first().drop_first()).len() == 0);
                assert(encode_utf8(dots.drop_first()).len() == 1);
                assert(encode_utf8(dots).len() == 2);
            }
        } else {
            assert(decode_utf8(encode_utf8(s@).subrange(0, max_len as int)) == head@);
        }
        assert(encode_utf8(s@).len() > max_len);
        r
    }
}

/// The column a process query names exactly: "cpu", "memory", "pid" or
/// "name"; anything else means CPU.
pub open spec fn query_column(s: Seq<char>) -> SortColumn {
    if s == "memory"@ {
        SortColumn::Memory
    } else if s == "pid"@ {
        SortColumn::Pid
    } else if s == "name"@ {
        SortColumn::Name
    } else {
        SortColumn::Cpu
    }
}

/// `order` lists distinct indices below `n`, and `keep` says which indices
/// it lists.
pub open spec fn lists_exactly(order: Seq<usize>, n: nat, keep: spec_fn(int) -> bool) -> bool {
    &&& forall|i: int, j: int| 0 <= i < j < order.len() ==> #[trigger] order[i] != #[trigger] order[j]
    &&& forall|x: usize| order.contains(x) <==> (x < n && keep(x as int))
}

/// The processes at the positions `order` lists.
pub open spec fn pick(procs: Seq<ProcessInfo>, order: Seq<usize>) -> Seq<ProcessInfo> {
    order.map_values(|i: usize| procs[i as int])
}

fn copy_process(p: &ProcessInfo) -> (r: ProcessInfo)
    ensures
        r == *p,
{
    ProcessInfo {
        pid: p.pid,
        name: p.name.clone(),
        cpu_bits: p.cpu_bits,
        memory: p.memory,
        status: p.status.clone(),
        parent_pid: p.parent_pid,
        user: p.user.clone(),
    }
}

fn pick_processes(procs: &Vec<ProcessInfo>, order: &Vec<usize>, count: usize) -> (r: Vec<ProcessInfo>)
    requires
        count <= order@.len(),
        forall|i: int| 0 <= i < order@.len() ==> #[trigger] order@[i] < procs@.len(),
    ensures
        r@ == pick(procs@, order@.take(count as int)),
{
    let mut r: Vec<ProcessInfo> = Vec::new();
    let mut k: usize = 0;
    while k < count
        invariant
            count <= order@.len(),
            forall|i: int| 0 <= i < order@.len() ==> #[trigger] order@[i] < procs@.len(),
            k <= count,
            r@ == pick(procs@, order@.take(k as int)),
        decreases count - k,
    {
        let p = copy_process(&procs[order[k]]);
        r.push(p);
        k = k + 1;
        assert(r@ =~= pick(procs@, order@.take(k as int)));
    }
    r
}

fn all_indices(n: usize) -> (r: Vec<usize>)
    ensures
        r@.len() == n,
        forall|i: int| 0 <= i < n ==> #[trigger] r@[i] == i,
{
    let mut r: Vec<usize> = Vec::new();
    let mut i: usize = 0;
    while i < n
        invariant
            i <= n,
            r@.len() == i,
            forall|k: int| 0 <= k < i ==> #[trigger] r@[k] == k,
        decreases n - i,
    {
        r.push(i);
        i = i + 1;
    }
    r
}

/// All processes sorted by the column `sort_by` names, ascending or
/// descending; equal processes keep their order when ascending and are
/// reversed when descending.
pub fn sorted_processes(procs: Vec<ProcessInfo>, sort_by: &str, ascending: bool) -> (r: Vec<ProcessInfo>)
    ensures
        exists|order: Seq<usize>| {
            &&& lists_exactly(order, procs@.len(), |x: int| true)
            &&& sorted_by(procs@, query_column(sort_by@), ascending, ascending, order)
            &&& r@ == pick(procs@, order)
        },
        r@.len() == procs@.len(),
        forall|i: int, j: int| 0 <= i < j < r@.len() ==> {
            let (p, q) = (#[trigger] r@[i], #[trigger] r@[j]);
            &&& sort_by@ == "name"@ ==> if ascending {
                lex_order(encode_utf8(lowercase(p.name@)), encode_utf8(lowercase(q.name@))) <= 0
            } else {
                lex_order(encode_utf8(lowercase(p.name@)), encode_utf8(lowercase(q.name@))) >= 0
            }
            &&& sort_by@ == "pid"@ ==> if ascending { p.pid <= q.pid } else { p.pid >= q.pid }
            &&& sort_by@ == "memory"@ ==> if ascending { p.memory <= q.memory } else { p.memory >= q.memory }
            &&& (sort_by@ != "name"@ && sort_by@ != "pid"@ && sort_by@ != "memory"@) ==> if ascending {
                cpu_order(p.cpu_bits) <= cpu_order(q.cpu_bits)
            } else {
                cpu_order(p.cpu_bits) >= cpu_order(q.cpu_bits)
            }
        },
{
    let sort_by = sort_by.to_owned();
    let col = if same_text(&sort_by, "memory") {
        SortColumn::Memory
    } else if same_text(&sort_by, "pid") {
        SortColumn::Pid
    } else if same_text(&sort_by, "name") {
        SortColumn::Name
    } else {
        SortColumn::Cpu
    };
    let lowered = lower_names(&procs);
    let idxs = all_indices(procs.len());
    let order = sort_indices(&procs, &lowered, &idxs, col, ascending, ascending);
    proof {
        assert forall|x: usize| order@.contains(x) <==> (x < procs@.len()) by {
            if x < procs@.len() {
                assert(idxs@[x as int] == x);
            }
        }
        assert forall|i: int| 0 <= i < order@.len() implies #[trigger] order@[i] < procs@.len() by {
            assert(order@.contains(order@[i]));
        }
        assert forall|i: int, j: int| 0 <= i < j < order@.len() implies #[trigger] order@[i] != #[trigger] order@[j] by {
            crate::order::lemma_precedes_order(procs@, col, ascending, ascending, order@[i] as int, order@[j] as int, order@[i] as int);
        }
    }
    let r = pick_processes(&procs, &order, order.len());
    assert(order@.take(order@.len() as int) =~= order@);
    assert(lists_exactly(order@, procs@.len(), |x: int| true));
    proof {
        reveal_strlit("name");
        reveal_strlit("pid");
        reveal_strlit("memory");
        assert(query_column(sort_by@) == col);
        lemma_sorted_keys(procs@, col, ascending, ascending, order@);
        assert forall|i: int, j: int| 0 <= i < j < r@.len() implies {
            let (p, q) = (#[trigger] r@[i], #[trigger] r@[j]);
            &&& sort_by@ == "name"@ ==> if ascending {
                lex_order(encode_utf8(lowercase(p.name@)), encode_utf8(lowercase(q.name@))) <= 0
            } else {
                lex_order(encode_utf8(lowercase(p.name@)), encode_utf8(lowercase(q.name@))) >= 0
            }
            &&& sort_by@ == "pid"@ ==> if ascending { p.pid <= q.pid } else { p.pid >= q.pid }
            &&& sort_by@ == "memory"@ ==> if ascending { p.memory <= q.memory } else { p.memory >= q.memory }
            &&& (sort_by@ != "name"@ && sort_by@ != "pid"@ && sort_by@ != "memory"@) ==> if ascending {
                cpu_order(p.cpu_bits) <= cpu_order(q.cpu_bits)
            } else {
                cpu_order(p.cpu_bits) >= cpu_order(q.cpu_bits)
            }
        } by {
            reveal_strlit("name");
            reveal_strlit("pid");
            reveal_strlit("memory");
            assert(r@[i] == procs@[order@[i] as int]);
            assert(r@[j] == procs@[order@[j] as int]);
            assert("name"@.len() == 4 && "pid"@.len() == 3 && "memory"@.len() == 6);
            assert("name"@ != "pid"@);
            assert("name"@ != "memory"@);
            assert("pid"@ != "memory"@);
        }
    }
    r
}

/// A process matches an optional lowercase name filter when there is none,
/// or it occurs in the process's lowercase name.
pub open spec fn matches_name(p: ProcessInfo, lower_filter: Option<Seq<char>>) -> bool {
    match lower_filter {
        Some(f) => contains_bytes(name_key(p), encode_utf8(f)),
        None => true,
    }
}

/// The lowercase form of an optional filter.
pub open spec fn lower_option(filter: Option<&str>) -> Option<Seq<char>> {
    match filter {
        Some(f) => Some(lowercase(f@)),
        None => None,
    }
}

/// `order` lists, without repetition, exactly the indices of the processes
/// that match an optional lowercase name filter.
pub open spec fn lists_name_matches(order: Seq<usize>, procs: Seq<ProcessInfo>, lower_filter: Option<Seq<char>>) -> bool {
    &&& forall|i: int, j: int| 0 <= i < j < order.len() ==> #[trigger] order[i] != #[trigger] order[j]
    &&& forall|x: usize| order.contains(x) <==> (x < procs.len() && matches_name(procs[x as int], lower_filter))
}

/// The column, direction and tie order of a process listing query:
/// "memory" or "mem" by memory descending, "pid" by PID ascending, "name" by
/// name ascending, anything else by CPU descending; ties keep their order.
pub open spec fn listing_order(s: Seq<char>) -> (SortColumn, bool) {
    if s == "memory"@ || s == "mem"@ {
        (SortColumn::Memory, false)
    } else if s == "pid"@ {
        (SortColumn::Pid, true)
    } else if s == "name"@ {
        (SortColumn::Name, true)
    } else {
        (SortColumn::Cpu, false)
    }
}

/// A CPU reading (the bits of an `f32`) as a listing reads it back: NaN and
/// the infinities have no numeric value there and count as 0.
pub open spec fn listed_cpu_bits(bits: u32) -> u32 {
    if bits % 0x8000_0000 >= 0x7f80_0000 { 0 } else { bits }
}

/// The processes as a listing orders them: each with its CPU reading read
/// back by `listed_cpu_bits`.
pub open spec fn listing_keys(procs: Seq<ProcessInfo>) -> Seq<ProcessInfo> {
    procs.map_values(|p: ProcessInfo| ProcessInfo { cpu_bits: listed_cpu_bits(p.cpu_bits), ..p })
}

fn listing_keys_of(procs: &Vec<ProcessInfo>) -> (r: Vec<ProcessInfo>)
    ensures
        r@ == listing_keys(procs@),
{
    let mut r: Vec<ProcessInfo> = Vec::new();
    let mut i: usize = 0;
    while i < procs.len()
        invariant
            i <= procs@.len(),
            r@ == listing_keys(procs@).take(i as int),
        decreases procs@.len() - i,
    {
        let mut p = copy_process(&procs[i]);
        if p.cpu_bits % 0x8000_0000 >= 0x7f80_0000 {
            p.cpu_bits = 0;
        }
        r.push(p);
        proof {
            assert(listing_keys(procs@).take(i + 1) =~= listing_keys(procs@).take(i as int).push(p));
        }
        i = i + 1;
    }
    proof {
        assert(listing_keys(procs@).take(procs@.len() as int) =~= listing_keys(procs@));
    }
    r
}

/// The processes a listing query returns: those whose lowercase name
/// contains the lowercase filter, in the order the query names (a CPU
/// reading that is NaN or infinite counts as 0 there), at most `limit` of
/// them.
pub fn select_processes(procs: Vec<ProcessInfo>, sort_by: &str, limit: usize, filter: Option<&str>) -> (r: Vec<ProcessInfo>)
    ensures
        exists|order: Seq<usize>| {
            &&& lists_name_matches(order, procs@, lower_option(filter))
            &&& sorted_by(listing_keys(procs@), listing_order(sort_by@).0, listing_order(sort_by@).1, true, order)
            &&& r@ == pick(procs@, order.take(if limit < order.len() { limit as int } else { order.len() as int }))
        },
        forall|i: int, j: int| 0 <= i < j < r@.len() ==> {
            let (p, q) = (#[trigger] r@[i], #[trigger] r@[j]);
            &&& (sort_by@ == "memory"@ || sort_by@ == "mem"@) ==> p.memory >= q.memory
            &&& sort_by@ == "pid"@ ==> p.pid <= q.pid
            &&& sort_by@ == "name"@
                ==> lex_order(encode_utf8(lowercase(p.name@)), encode_utf8(lowercase(q.name@))) <= 0
            &&& (sort_by@ != "memory"@ && sort_by@ != "mem"@ && sort_by@ != "pid"@ && sort_by@ != "name"@)
                ==> cpu_order(listed_cpu_bits(p.cpu_bits)) >= cpu_order(listed_cpu_bits(q.cpu_bits))
        },
{
    let sort_text = sort_by.to_owned();
    let (col, key_asc) = if same_text(&sort_text, "memory") || same_text(&sort_text, "mem") {
        (SortColumn::Memory, false)
    } else if same_text(&sort_text, "pid") {
        (SortColumn::Pid, true)
    } else if same_text(&sort_text, "name") {
        (SortColumn::Name, true)
    } else {
        (SortColumn::Cpu, false)
    };
    let ghost lower_filter = lower_option(filter);
    let lowered = lower_names(&procs);
    let needle: Option<String> = match filter {
        Some(f) => Some(to_lowercase(f)),
        None => None,
    };
    let mut idxs: Vec<usize> = Vec::new();
    let mut i: usize = 0;
    while i < procs.len()
        invariant
            lowered_names(procs@, lowered@),
            i <= procs@.len(),
            match needle {
                Some(n) => lower_filter == Some(n@),
                None => lower_filter.is_none(),
            },
            forall|k: int| 0 <= k < idxs@.len() ==> #[trigger] idxs@[k] < i,
            forall|a: int, b: int| 0 <= a < b < idxs@.len() ==> #[trigger] idxs@[a] < #[trigger] idxs@[b],
            forall|x: usize| idxs@.contains(x) <==> (x < i && matches_name(procs@[x as int], lower_filter)),
        decreases procs@.len() - i,
    {
        let keep = match &needle {
            Some(n) => bytes_contain(lowered[i].as_str().as_bytes(), n.as_str().as_bytes()),
            None => true,
        };
        let ghost before = idxs@;
        if keep {
            idxs.push(i);
        }
        proof {
            assert forall|x: usize| idxs@.contains(x) <==> (x < i + 1 && matches_name(procs@[x as int], lower_filter)) by {
                if idxs@.contains(x) {
                    let w = choose|w: int| 0 <= w < idxs@.len() && idxs@[w] == x;
                    if w < before.len() {
                        assert(before.contains(x));
                    }
                }
                if x < i && matches_name(procs@[x as int], lower_filter) {
                    assert(before.contains(x));
                    let w = choose|w: int| 0 <= w < before.len() && before[w] == x;
                    assert(idxs@[w] == x);
                }
                if x == i && keep {
                    assert(idxs@[before.len() as int] == x);
                }
            }
        }
        i = i + 1;
    }
    proof {
        assert forall|a: int, b: int| 0 <= a < b < idxs@.len() implies #[trigger] idxs@[a] != #[trigger] idxs@[b] by {}
    }
    let keyed = listing_keys_of(&procs);
    proof {
        assert(lowered_names(keyed@, lowered@)) by {
            assert forall|i: int| 0 <= i < keyed@.len() implies (#[trigger] lowered@[i])@ == lowercase(keyed@[i].name@) by {
                assert(keyed@[i].name == procs@[i].name);
            }
        }
    }
    let order = sort_indices(&keyed, &lowered, &idxs, col, key_asc, true);
    proof {
        assert forall|i: int| 0 <= i < order@.len() implies #[trigger] order@[i] < procs@.len() by {
            assert(order@.contains(order@[i]));
            assert(idxs@.contains(order@[i]));
        }
        assert forall|i: int, j: int| 0 <= i < j < order@.len() implies #[trigger] order@[i] != #[trigger] order@[j] by {
            crate::order::lemma_precedes_order(keyed@, col, key_asc, true, order@[i] as int, order@[j] as int, order@[i] as int);
        }
    }
    let count = if limit < order.len() { limit } else { order.len() };
    let r = pick_processes(&procs, &order, count);
    assert(lists_name_matches(order@, procs@, lower_filter));
    assert(listing_order(sort_by@) == (col, key_asc));
    assert(r@ == pick(procs@, order@.take(if limit < order@.len() { limit as int } else { order@.len() as int })));
    proof {
        lemma_sorted_keys(keyed@, col, key_asc, true, order@);
        assert forall|i: int, j: int| 0 <= i < j < r@.len() implies {
            let (p, q) = (#[trigger] r@[i], #[trigger] r@[j]);
            &&& (sort_by@ == "memory"@ || sort_by@ == "mem"@) ==> p.memory >= q.memory
            &&& sort_by@ == "pid"@ ==> p.pid <= q.pid
            &&& sort_by@ == "name"@
                ==> lex_order(encode_utf8(lowercase(p.name@)), encode_utf8(lowercase(q.name@))) <= 0
            &&& (sort_by@ != "memory"@ && sort_by@ != "mem"@ && sort_by@ != "pid"@ && sort_by@ != "name"@)
                ==> cpu_order(listed_cpu_bits(p.cpu_bits)) >= cpu_order(listed_cpu_bits(q.cpu_bits))
        } by {
            reveal_strlit("name");
            reveal_strlit("pid");
            reveal_strlit("memory");
            reveal_strlit("mem");
            assert("name"@.len() == 4 && "pid"@.len() == 3 && "memory"@.len() == 6 && "mem"@.len() == 3);
            assert("pid"@[0] != "mem"@[0]);
            assert(r@[i] == procs@[order@[i] as int]);
            assert(r@[j] == procs@[order@[j] as int]);
            assert(keyed@[order@[i] as int].name == r@[i].name);
            assert(keyed@[order@[j] as int].name == r@[j].name);
        }
    }
    r
}

/// After moving the scroll offset, the selected row is on screen when any
/// row is visible, and an offset that already shows it stays.
pub proof fn lemma_scroll_shows_selection(selected: nat, scroll: nat, rows: nat)
    ensures
        rows > 0 ==> scroll_to_show(selected, scroll, rows) <= selected < scroll_to_show(selected, scroll, rows) + rows,
        scroll <= selected < scroll + rows ==> scroll_to_show(selected, scroll, rows) == scroll,
{
}

/// A clamped selection lies within a non-empty view.
pub proof fn lemma_clamped_selection_in_view(selected: nat, len: nat)
    ensures
        len > 0 ==> clamp_selection(selected, len) < len,
        selected < len ==> clamp_selection(selected, len) == selected,
{
}

/// A signal a process can be sent.
#[derive(Debug, Clone, Copy, PartialEq, Eq, Structural)]
pub enum Signal {
    /// Forced termination.
    Kill,
    /// Interrupt.
    Interrupt,
    /// Polite termination.
    Term,
}

/// The uppercase form of `s`, as `str::to_uppercase` computes it.
pub uninterp spec fn uppercase(s: Seq<char>) -> Seq<char>;

/// Uppercases a string (`str::to_uppercase`). The result is a function of
/// the string alone; on ASCII text each character becomes its ASCII
/// uppercase. What it is on other text is left to the name `uppercase`.
#[verifier::external_body]
fn to_uppercase(s: &str) -> (r: String)
    ensures
        r@ == uppercase(s@),
        is_ascii_chars(s@) ==> r@ == ascii_upper(s@),
{
    s.to_uppercase()
}

/// The signal a name denotes, compared in uppercase: "SIGKILL", "KILL" or
/// "9" kill, "SIGINT", "INT" or "2" interrupt, anything else terminates.
pub open spec fn signal_named(upper: Seq<char>) -> Signal {
    if upper == "SIGKILL"@ || upper == "KILL"@ || upper == "9"@ {
        Signal::Kill
    } else if upper == "SIGINT"@ || upper == "INT"@ || upper == "2"@ {
        Signal::Interrupt
    } else {
        Signal::Term
    }
}

/// Parses a signal name, ignoring case; unknown names mean termination.
pub fn parse_signal(name: &str) -> (r: Signal)
    ensures
        r == signal_named(uppercase(name@)),
        is_ascii_chars(name@) ==> r == signal_named(ascii_upper(name@)),
{
    let upper = to_uppercase(name);
    if same_text(&upper, "SIGKILL") || same_text(&upper, "KILL") || same_text(&upper, "9") {
        Signal::Kill
    } else if same_text(&upper, "SIGINT") || same_text(&upper, "INT") || same_text(&upper, "2") {
        Signal::Interrupt
    } else {
        Signal::Term
    }
}

/// Only the selection and the scroll offset may differ between `a` and `b`:
/// the processes, the view, the visible rows, the sort and the filter are
/// the same, and well-formedness is kept.
pub open spec fn same_contents(a: ProcessList, b: ProcessList) -> bool {
    &&& b.rows() == a.rows()
    &&& b.processes() == a.processes()
    &&& b.view_indices() == a.view_indices()
    &&& b.column() == a.column()
    &&& b.ascending() == a.ascending()
    &&& b.filter_text() == a.filter_text()
    &&& a.wf() ==> b.wf()
}

/// `b` is `a` with the selection moved to `target`, scrolled into view.
pub open spec fn selected_at(a: ProcessList, b: ProcessList, target: nat) -> bool {
    &&& same_contents(a, b)
    &&& b.sel() == target
    &&& b.scroll() == scroll_to_show(target, a.scroll() as nat, a.rows() as nat)
}

/// `b` is `a` with the selection one row down, when there is a row below;
/// otherwise nothing changes.
pub open spec fn moved_down(a: ProcessList, b: ProcessList) -> bool {
    if a.sel() + 1 < a.view_indices().len() {
        selected_at(a, b, (a.sel() + 1) as nat)
    } else {
        same_contents(a, b) && b.sel() == a.sel() && b.scroll() == a.scroll()
    }
}

/// `b` is `a` with the selection one row up, when there is a row above;
/// otherwise nothing changes.
pub open spec fn moved_up(a: ProcessList, b: ProcessList) -> bool {
    if a.sel() > 0 {
        selected_at(a, b, (a.sel() - 1) as nat)
    } else {
        same_contents(a, b) && b.sel() == 0 && b.scroll() == a.scroll()
    }
}

/// `b` is `a` with the selection a page further down, stopping at the last
/// row; an empty view changes nothing.
pub open spec fn paged_down(a: ProcessList, b: ProcessList) -> bool {
    if a.view_indices().len() == 0 {
        same_contents(a, b) && b.sel() == a.sel() && b.scroll() == a.scroll()
    } else if a.sel() + a.rows() < a.view_indices().len() {
        selected_at(a, b, (a.sel() + a.rows()) as nat)
    } else {
        selected_at(a, b, (a.view_indices().len() - 1) as nat)
    }
}

/// `b` is `a` with the selection a page further up, stopping at the first
/// row.
pub open spec fn paged_up(a: ProcessList, b: ProcessList) -> bool {
    selected_at(a, b, if a.sel() >= a.rows() { (a.sel() - a.rows()) as nat } else { 0 })
}

/// `b` is `a` with the first row selected.
pub open spec fn moved_to_first(a: ProcessList, b: ProcessList) -> bool {
    selected_at(a, b, 0)
}

/// `b` is `a` with the last row selected; with an empty view the selection
/// stays where it was (and is scrolled into view).
pub open spec fn moved_to_last(a: ProcessList, b: ProcessList) -> bool {
    selected_at(a, b, if a.view_indices().len() > 0 { (a.view_indices().len() - 1) as nat } else { a.sel() as nat })
}

/// `b` has `a`'s processes, filter, scroll offset and visible rows, a view
/// rebuilt for its own sort, and `a`'s selection clamped to that view.
pub open spec fn rebuilt(a: ProcessList, b: ProcessList) -> bool {
    &&& b.wf()
    &&& b.view_current()
    &&& b.processes() == a.processes()
    &&& b.filter_text() == a.filter_text()
    &&& b.scroll() == a.scroll()
    &&& b.rows() == a.rows()
    &&& b.sel() == clamp_selection(a.sel() as nat, b.view_indices().len())
}

/// `b` is `a` sorted by the next column, in the same direction.
pub open spec fn cycled_sort(a: ProcessList, b: ProcessList) -> bool {
    &&& rebuilt(a, b)
    &&& b.column() == next_column(a.column())
    &&& b.ascending() == a.ascending()
}

/// `b` is `a` sorted by the same column in the other direction.
pub open spec fn toggled_direction(a: ProcessList, b: ProcessList) -> bool {
    &&& rebuilt(a, b)
    &&& b.column() == a.column()
    &&& b.ascending() == !a.ascending()
}

/// `b` is `a` with filter `filter` applied: the view rebuilt, the selection
/// and scrolling back at the top, the sort and processes unchanged.
pub open spec fn filter_applied(a: ProcessList, b: ProcessList, filter: Seq<char>) -> bool {
    &&& b.wf()
    &&& b.view_current()
    &&& b.filter_text()@ == filter
    &&& b.sel() == 0
    &&& b.scroll() == 0
    &&& b.column() == a.column()
    &&& b.ascending() == a.ascending()
    &&& b.processes() == a.processes()
    &&& b.rows() == a.rows()
}

/// Toggling the sort direction twice from a current view gives back the
/// same view, sort, filter and scroll offset, and the selection clamped to
/// the view (the same selection when it was already in range).
pub proof fn lemma_toggle_twice(a: ProcessList, b: ProcessList, c: ProcessList)
    requires
        a.view_current(),
        toggled_direction(a, b),
        toggled_direction(b, c),
    ensures
        c.view_indices() == a.view_indices(),
        c.column() == a.column(),
        c.ascending() == a.ascending(),
        c.filter_text() == a.filter_text(),
        c.processes() == a.processes(),
        c.scroll() == a.scroll(),
        c.sel() == clamp_selection(a.sel() as nat, a.view_indices().len()),
{
    let procs = a.processes();
    lemma_sorted_unique(procs, a.column(), a.ascending(), true, c.view_indices(), a.view_indices());
    lemma_sorted_no_duplicates(procs, a.column(), a.ascending(), true, a.view_indices());
    lemma_sorted_no_duplicates(procs, b.column(), b.ascending(), true, b.view_indices());
    lemma_same_listing_same_len(a.view_indices(), b.view_indices());
}

/// A current view, spelled out: each matching process index exactly once,
/// no other index, ordered by the sort column in the sort direction with
/// equal processes in the order they came in; as many rows as matching
/// processes.
pub proof fn lemma_current_view(pl: ProcessList)
    requires
        pl.view_current(),
        pl.processes().len() <= usize::MAX,
    ensures
        pl.view_indices().no_duplicates(),
        forall|x: usize| pl.view_indices().contains(x) <==> (x < pl.processes().len()
            && matches_filter(pl.processes()[x as int], lowercase(pl.filter_text()@))),
        sorted_by(pl.processes(), pl.column(), pl.ascending(), true, pl.view_indices()),
        pl.view_indices().len() == matching_count(pl.processes(), lowercase(pl.filter_text()@)),
{
    lemma_sorted_no_duplicates(pl.processes(), pl.column(), pl.ascending(), true, pl.view_indices());
    lemma_view_counts_matches(
        pl.processes(), pl.view_indices(), lowercase(pl.filter_text()@), pl.column(), pl.ascending(),
    );
}

/// A current view lists a process exactly when the filter is empty, or
/// the filter's lowercase form occurs as a contiguous run of bytes in the
/// process's lowercase name or in its decimal PID.
pub proof fn lemma_filter_membership(pl: ProcessList)
    requires
        pl.view_current(),
    ensures
        forall|x: usize| #![trigger pl.view_indices().contains(x)]
            pl.view_indices().contains(x) <==> {
                let procs = pl.processes();
                let needle = encode_utf8(lowercase(pl.filter_text()@));
                let name = encode_utf8(lowercase(procs[x as int].name@));
                let pid = encode_utf8(decimal(procs[x as int].pid as nat));
                &&& x < procs.len()
                &&& {
                    ||| lowercase(pl.filter_text()@).len() == 0
                    ||| exists|k: int| 0 <= k && k + needle.len() <= name.len()
                        && #[trigger] name.subrange(k, k + needle.len()) == needle
                    ||| exists|k: int| 0 <= k && k + needle.len() <= pid.len()
                        && #[trigger] pid.subrange(k, k + needle.len()) == needle
                }
            },
{
}

/// In a current view the sort key never decreases from one row to the next
/// when ascending, and never increases when descending: lowercase names in
/// byte order, PIDs, memory, or CPU usage.
pub proof fn lemma_current_view_keys(pl: ProcessList)
    requires
        pl.view_current(),
    ensures
        forall|i: int, j: int| 0 <= i < j < pl.view_indices().len() ==> {
            let (p, q) = (pl.processes()[#[trigger] pl.view_indices()[i] as int], pl.processes()[#[trigger] pl.view_indices()[j] as int]);
            let (a, b) = (if pl.ascending() { p } else { q }, if pl.ascending() { q } else { p });
            &&& pl.column() == SortColumn::Name
                ==> lex_order(encode_utf8(lowercase(a.name@)), encode_utf8(lowercase(b.name@))) <= 0
            &&& pl.column() == SortColumn::Pid ==> a.pid <= b.pid
            &&& pl.column() == SortColumn::Memory ==> a.memory <= b.memory
            &&& pl.column() == SortColumn::Cpu ==> cpu_order(a.cpu_bits) <= cpu_order(b.cpu_bits)
        },
{
    lemma_sorted_keys(pl.processes(), pl.column(), pl.ascending(), true, pl.view_indices());
    assert forall|i: int, j: int| 0 <= i < j < pl.view_indices().len() implies {
            let (p, q) = (pl.processes()[#[trigger] pl.view_indices()[i] as int], pl.processes()[#[trigger] pl.view_indices()[j] as int]);
            let (a, b) = (if pl.ascending() { p } else { q }, if pl.ascending() { q } else { p });
            &&& pl.column() == SortColumn::Name
                ==> lex_order(encode_utf8(lowercase(a.name@)), encode_utf8(lowercase(b.name@))) <= 0
            &&& pl.column() == SortColumn::Pid ==> a.pid <= b.pid
            &&& pl.column() == SortColumn::Memory ==> a.memory <= b.memory
            &&& pl.column() == SortColumn::Cpu ==> cpu_order(a.cpu_bits) <= cpu_order(b.cpu_bits)
        } by {
        let p = pl.processes()[pl.view_indices()[i] as int];
        let q = pl.processes()[pl.view_indices()[j] as int];
        crate::order::lemma_column_order_order(pl.column(), p, q, p);
    }
}

/// A listing query keeps a process exactly when there is no filter, or the
/// filter's lowercase form occurs as a contiguous run of bytes in the
/// process's lowercase name.
pub proof fn lemma_name_match_membership(order: Seq<usize>, procs: Seq<ProcessInfo>, filter: Option<&str>)
    requires
        lists_name_matches(order, procs, lower_option(filter)),
    ensures
        forall|x: usize| #![trigger order.contains(x)]
            order.contains(x) <==> {
                &&& x < procs.len()
                &&& match filter {
                    None => true,
                    Some(f) => {
                        let needle = encode_utf8(lowercase(f@));
                        let name = encode_utf8(lowercase(procs[x as int].name@));
                        exists|k: int| 0 <= k && k + needle.len() <= name.len()
                            && #[trigger] name.subrange(k, k + needle.len()) == needle
                    },
                }
            },
{
}

/// Filtering ignores the case of names: two processes with the same PID
/// whose names have the same lowercase form are kept or dropped together.
pub proof fn lemma_filter_ignores_name_case(p: ProcessInfo, q: ProcessInfo, lower_filter: Seq<char>)
    requires
        p.pid == q.pid,
        lowercase(p.name@) == lowercase(q.name@),
    ensures
        matches_filter(p, lower_filter) == matches_filter(q, lower_filter),
{
}

/// Managed process list with sorting, filtering, and selection.
pub struct ProcessList {
    /// All processes (unfiltered, unsorted).
    all_processes: Vec<ProcessInfo>,
    /// Filtered + sorted view indices into `all_processes`.
    view: Vec<usize>,
    /// Current sort column.
    pub sort_column: SortColumn,
    /// Sort ascending (true) or descending (false).
    pub sort_ascending: bool,
    /// Current filter string (empty = no filter).
    pub filter: String,
    /// Currently selected index in the view.
    pub selected: usize,
    /// Scroll offset for the visible window.
    pub scroll_offset: usize,
    /// Number of visible rows.
    pub visible_rows: usize,
}

impl ProcessList {
    /// All processes, in the order they were given.
    pub closed spec fn processes(&self) -> Seq<ProcessInfo> {
        self.all_processes@
    }

    /// The filtered and sorted view, as indices into `processes()`.
    pub closed spec fn view_indices(&self) -> Seq<usize> {
        self.view@
    }

    /// The selected row.
    pub closed spec fn sel(&self) -> usize {
        self.selected
    }

    /// The first visible row.
    pub closed spec fn scroll(&self) -> usize {
        self.scroll_offset
    }

    /// The number of visible rows.
    pub closed spec fn rows(&self) -> usize {
        self.visible_rows
    }

    /// The sort column.
    pub closed spec fn column(&self) -> SortColumn {
        self.sort_column
    }

    /// The sort direction: ascending or not.
    pub closed spec fn ascending(&self) -> bool {
        self.sort_ascending
    }

    /// The filter text.
    pub closed spec fn filter_text(&self) -> String {
        self.filter
    }

    /// The view only refers to existing processes.
    pub closed spec fn wf(&self) -> bool {
        forall|i: int| 0 <= i < self.view@.len() ==> #[trigger] self.view@[i] < self.all_processes@.len()
    }

    /// The view matches the current filter, sort column and direction.
    pub open spec fn view_current(&self) -> bool {
        is_sorted_view(self.processes(), self.view_indices(), lowercase(self.filter_text()@), self.column(), self.ascending())
    }

    /// Creates an empty process list.
    pub fn new(sort_column: SortColumn, visible_rows: usize) -> (pl: Self)
        ensures
            pl.wf(),
            pl.processes() == Seq::<ProcessInfo>::empty(),
            pl.view_indices() == Seq::<usize>::empty(),
            pl.column() == sort_column,
            pl.ascending() == false,
            pl.filter_text()@ == Seq::<char>::empty(),
            pl.sel() == 0,
            pl.scroll() == 0,
            pl.rows() == visible_rows,
    {
        ProcessList {
            all_processes: Vec::new(),
            view: Vec::new(),
            sort_column,
            sort_ascending: false,
            filter: String::new(),
            selected: 0,
            scroll_offset: 0,
            visible_rows,
        }
    }

    /// Recomputes the view from the processes, the filter, the sort column
    /// and direction, and keeps the selection in range.
    fn rebuild_view(&mut self)
        ensures
            final(self).wf(),
            final(self).view_current(),
            final(self).processes() == old(self).processes(),
            final(self).column() == old(self).column(),
            final(self).ascending() == old(self).ascending(),
            final(self).filter_text() == old(self).filter_text(),
            final(self).scroll() == old(self).scroll(),
            final(self).rows() == old(self).rows(),
            final(self).sel() == clamp_selection(old(self).sel() as nat, final(self).view_indices().len()),
            is_ascii_chars(final(self).filter_text()@)
                ==> lowercase(final(self).filter_text()@) == ascii_lower(final(self).filter_text()@),
    {
        let lowered = lower_names(&self.all_processes);
        let lower_filter = to_lowercase(self.filter.as_str());
        let matching = filter_indices(&self.all_processes, &lowered, &lower_filter);
        proof {
            assert forall|i: int, j: int| 0 <= i < j < matching@.len()
                implies #[trigger] matching@[i] != #[trigger] matching@[j] by {}
        }
        self.view = sort_indices(&self.all_processes, &lowered, &matching, self.sort_column, self.sort_ascending, true);
        proof {
            assert forall|i: int| 0 <= i < self.view@.len() implies #[trigger] self.view@[i] < self.all_processes@.len() by {
                assert(self.view@.contains(self.view@[i]));
                assert(matching@.contains(self.view@[i]));
            }
        }
        if self.view.len() > 0 {
            if self.selected >= self.view.len() {
                self.selected = self.view.len() - 1;
            }
        } else {
            self.selected = 0;
        }
    }

    /// Replaces the processes and rebuilds the view.
    pub fn update(&mut self, processes: Vec<ProcessInfo>)
        ensures
            final(self).wf(),
            final(self).view_current(),
            final(self).processes() == processes@,
            final(self).column() == old(self).column(),
            final(self).ascending() == old(self).ascending(),
            final(self).filter_text() == old(self).filter_text(),
            final(self).scroll() == old(self).scroll(),
            final(self).rows() == old(self).rows(),
            final(self).sel() == clamp_selection(old(self).sel() as nat, final(self).view_indices().len()),
    {
        self.all_processes = processes;
        self.rebuild_view();
    }

    /// Moves the scroll offset so the selection is visible.
    fn ensure_visible(&mut self)
        requires
            old(self).rows() > 0 || old(self).sel() < usize::MAX,
        ensures
            final(self).scroll() == scroll_to_show(
                old(self).sel() as nat,
                old(self).scroll() as nat,
                old(self).rows() as nat,
            ),
            final(self).sel() == old(self).sel(),
            final(self).rows() == old(self).rows(),
            final(self).processes() == old(self).processes(),
            final(self).view_indices() == old(self).view_indices(),
            final(self).column() == old(self).column(),
            final(self).ascending() == old(self).ascending(),
            final(self).filter_text() == old(self).filter_text(),
    {
        if self.selected < self.scroll_offset {
            self.scroll_offset = self.selected;
        } else if self.selected - self.scroll_offset >= self.visible_rows {
            self.scroll_offset = if self.visible_rows > 0 {
                self.selected - (self.visible_rows - 1)
            } else {
                self.selected + 1
            };
        }
    }

    /// Moves the selection down one row, if there is a row below.
    pub fn select_next(&mut self)
        requires
            old(self).rows() > 0 || old(self).sel() < usize::MAX,
        ensures
            moved_down(*old(self), *final(self)),
    {
        if self.view.len() > 0 && self.selected < self.view.len() - 1 {
            self.selected = self.selected + 1;
            self.ensure_visible();
        }
    }

    /// Moves the selection up one row, if there is a row above.
    pub fn select_prev(&mut self)
        ensures
            moved_up(*old(self), *final(self)),
    {
        if self.selected > 0 {
            self.selected = self.selected - 1;
            self.ensure_visible();
        }
    }

    /// Moves the selection down a page, stopping at the last row.
    pub fn page_down(&mut self)
        requires
            old(self).sel() + old(self).rows() <= usize::MAX,
        ensures
            paged_down(*old(self), *final(self)),
    {
        if self.view.len() == 0 {
            return;
        }
        let target = self.selected + self.visible_rows;
        self.selected = if target < self.view.len() { target } else { self.view.len() - 1 };
        self.ensure_visible();
    }

    /// Moves the selection up a page, stopping at the first row.
    pub fn page_up(&mut self)
        requires
            old(self).rows() > 0 || old(self).sel() < usize::MAX,
        ensures
            paged_up(*old(self), *final(self)),
    {
        self.selected = self.selected.saturating_sub(self.visible_rows);
        self.ensure_visible();
    }

    /// Selects the first row.
    pub fn select_first(&mut self)
        ensures
            moved_to_first(*old(self), *final(self)),
    {
        self.selected = 0;
        self.ensure_visible();
    }

    /// Selects the last row (the selection stays when the view is empty).
    pub fn select_last(&mut self)
        requires
            old(self).rows() > 0 || old(self).sel() < usize::MAX,
        ensures
            moved_to_last(*old(self), *final(self)),
    {
        if self.view.len() > 0 {
            self.selected = self.view.len() - 1;
        }
        self.ensure_visible();
    }

    /// Cycles the sort column and rebuilds the view.
    pub fn cycle_sort(&mut self)
        ensures
            cycled_sort(*old(self), *final(self)),
    {
        self.sort_column = self.sort_column.next();
        self.rebuild_view();
    }

    /// Toggles the sort direction and rebuilds the view.
    pub fn toggle_sort_direction(&mut self)
        ensures
            toggled_direction(*old(self), *final(self)),
    {
        self.sort_ascending = !self.sort_ascending;
        self.rebuild_view();
    }

    /// Sets the filter, resets the selection and scrolling to the top, and
    /// rebuilds the view.
    pub fn set_filter(&mut self, filter: String)
        ensures
            filter_applied(*old(self), *final(self), filter@),
            filter@.len() == 0 ==> final(self).view_indices().len() == final(self).processes().len(),
    {
        self.filter = filter;
        self.selected = 0;
        self.scroll_offset = 0;
        self.rebuild_view();
        let total: usize = self.all_processes.len();
        proof {
            assert(self.all_processes@.len() == total);
            if self.filter@.len() == 0 {
                assert(ascii_lower(self.filter@) =~= Seq::<char>::empty());
                lemma_empty_filter_matches_all(self.all_processes@);
                lemma_view_counts_matches(
                    self.all_processes@, self.view@, lowercase(self.filter@), self.sort_column, self.sort_ascending,
                );
            }
        }
    }

    /// The selected process, if the selection is within the view.
    pub fn selected_process(&self) -> (r: Option<&ProcessInfo>)
        requires
            self.wf(),
        ensures
            r == if self.sel() < self.view_indices().len() {
                Some(&self.processes()[self.view_indices()[self.sel() as int] as int])
            } else {
                None
            },
    {
        if self.selected < self.view.len() {
            let idx = self.view[self.selected];
            Some(&self.all_processes[idx])
        } else {
            None
        }
    }

    /// The processes in the visible window: up to `visible_rows` rows of the
    /// view from the scroll offset on.
    pub fn visible_processes(&self) -> (r: Vec<&ProcessInfo>)
        requires
            self.wf(),
            self.scroll() <= self.view_indices().len(),
        ensures
            r@.len() == if self.scroll() + self.rows() <= self.view_indices().len() {
                self.rows() as int
            } else {
                self.view_indices().len() - self.scroll()
            },
            forall|i: int| 0 <= i < r@.len()
                ==> *(#[trigger] r@[i]) == self.processes()[self.view_indices()[self.scroll() + i] as int],
    {
        let len = self.view.len();
        let end = if self.visible_rows < len - self.scroll_offset {
            self.scroll_offset + self.visible_rows
        } else {
            len
        };
        let mut r: Vec<&ProcessInfo> = Vec::new();
        let mut k: usize = self.scroll_offset;
        while k < end
            invariant
                self.wf(),
                self.scroll_offset <= k <= end <= self.view@.len(),
                r@.len() == k - self.scroll_offset,
                forall|i: int| 0 <= i < r@.len()
                    ==> *(#[trigger] r@[i]) == self.all_processes@[self.view@[self.scroll_offset + i] as int],
            decreases end - k,
        {
            let idx = self.view[k];
            r.push(&self.all_processes[idx]);
            k = k + 1;
        }
        r
    }

    /// The header row of the process table.
    pub fn header_row(&self) -> (r: String)
        ensures
            r@ == header_text(self.column(), self.ascending()),
    {
        let col = self.sort_column;
        let asc = self.sort_ascending;
        let mut pid = "PID".to_owned();
        pid.append(marker(SortColumn::Pid, col, asc));
        let mut name = "NAME".to_owned();
        name.append(marker(SortColumn::Name, col, asc));
        let mut r = String::new();
        push_padded_left(&mut r, pid.as_str(), 7);
        r.append(" ");
        push_padded_right(&mut r, name.as_str(), 20);
        r.append(" ");
        push_padded_left(&mut r, "CPU%", 6);
        r.append(marker(SortColumn::Cpu, col, asc));
        r.append(" ");
        push_padded_left(&mut r, "MEM", 10);
        r.append(marker(SortColumn::Memory, col, asc));
        r.append(" ");
        push_padded_right(&mut r, "STATE", 6);
        r.append(" ");
        r.append("USER");
        r
    }

    /// The title line of the process view.
    pub fn title_line(&self) -> (r: String)
        ensures
            r@ == title_text(
                self.view_indices().len(),
                self.processes().len(),
                self.column(),
                self.ascending(),
                self.filter_text()@,
            ),
    {
        let mut r = "  Processes (".to_owned();
        push_decimal(&mut r, self.view.len() as u64);
        r.append("/");
        push_decimal(&mut r, self.all_processes.len() as u64);
        r.append(")  Sort: ");
        r.append(self.sort_column.label());
        r.append(" ");
        r.append(if self.sort_ascending { "^" } else { "v" });
        r.append("  Filter: ");
        if self.filter.as_str().unicode_len() == 0 {
            r.append("-");
        } else {
            r.append(self.filter.as_str());
        }
        r
    }

    /// The number of processes in the filtered view.
    pub fn filtered_count(&self) -> (n: usize)
        ensures
            n == self.view_indices().len(),
            self.view_current() ==> n == matching_count(self.processes(), lowercase(self.filter_text()@)),
    {
        let total: usize = self.all_processes.len();
        proof {
            assert(self.processes().len() == total);
            if self.view_current() {
                lemma_view_counts_matches(
                    self.processes(), self.view_indices(), lowercase(self.filter_text()@),
                    self.column(), self.ascending(),
                );
            }
        }
        self.view.len()
    }

    /// The number of processes, unfiltered.
    pub fn total_count(&self) -> (n: usize)
        ensures
            n == self.processes().len(),
    {
        self.all_processes.len()
    }
}

} // verus!
