//! Orderings of processes: per-column comparisons, lexicographic byte order,
//! and a stable insertion sort over process indices.

use vstd::prelude::*;
use vstd::utf8::encode_utf8;
use crate::platform::ProcessInfo;
use crate::process::SortColumn;

verus! {

/// The lowercase form of `s`, as `str::to_lowercase` computes it.
pub uninterp spec fn lowercase(s: Seq<char>) -> Seq<char>;

/// Every character of `s` is ASCII.
pub open spec fn is_ascii_chars(s: Seq<char>) -> bool {
    forall|i: int| 0 <= i < s.len() ==> (#[trigger] s[i] as u32) < 128
}

/// The ASCII lowercase of a character: 'A' to 'Z' become 'a' to 'z', every
/// other character stays.
pub open spec fn ascii_lower_char(c: char) -> char {
    if 65 <= (c as u32) <= 90 { ((c as u32) + 32) as char } else { c }
}

/// The ASCII uppercase of a character: 'a' to 'z' become 'A' to 'Z', every
/// other character stays.
pub open spec fn ascii_upper_char(c: char) -> char {
    if 97 <= (c as u32) <= 122 { ((c as u32) - 32) as char } else { c }
}

/// `s` with each character in ASCII lowercase.
pub open spec fn ascii_lower(s: Seq<char>) -> Seq<char> {
    Seq::new(s.len(), |i: int| ascii_lower_char(s[i]))
}

/// `s` with each character in ASCII uppercase.
pub open spec fn ascii_upper(s: Seq<char>) -> Seq<char> {
    Seq::new(s.len(), |i: int| ascii_upper_char(s[i]))
}

/// Lowercases a string (`str::to_lowercase`). The result is a function of
/// the string alone (no locale); on ASCII text each character becomes its
/// ASCII lowercase. What it is on other text is left to the name
/// `lowercase`.
#[verifier::external_body]
pub(crate) fn to_lowercase(s: &str) -> (r: String)
    ensures
        r@ == lowercase(s@),
        is_ascii_chars(s@) ==> r@ == ascii_lower(s@),
{
    s.to_lowercase()
}

/// Three-way comparison of integers: -1, 0 or 1.
pub open spec fn three_way(a: int, b: int) -> int {
    if a < b {
        -1
    } else if a > b {
        1
    } else {
        0
    }
}

/// Lexicographic comparison of `a` and `b` from position `i` on: -1, 0 or 1,
/// a proper prefix coming first.
pub open spec fn lex_order_from(a: Seq<u8>, b: Seq<u8>, i: int) -> int
    decreases a.len() - i,
{
    if i >= a.len() {
        if i >= b.len() { 0 } else { -1 }
    } else if i >= b.len() {
        1
    } else if a[i] < b[i] {
        -1
    } else if a[i] > b[i] {
        1
    } else {
        lex_order_from(a, b, i + 1)
    }
}

/// Lexicographic comparison of byte strings (the order of `str` and
/// `String`).
pub open spec fn lex_order(a: Seq<u8>, b: Seq<u8>) -> int {
    lex_order_from(a, b, 0)
}

/// An integer that orders `f32` values (given by their bits) as their
/// numeric order does, with `-0.0` and `+0.0` equal. A NaN, which no CPU
/// usage is, falls beyond the infinity of its sign.
pub open spec fn cpu_order(bits: u32) -> int {
    let magnitude = bits % 0x8000_0000;
    if bits >= 0x8000_0000 {
        0x8000_0000 - magnitude
    } else {
        0x8000_0000 + magnitude
    }
}

/// The UTF-8 bytes of a process's lowercase name: what name ordering and
/// name filters compare.
pub open spec fn name_key(p: ProcessInfo) -> Seq<u8> {
    encode_utf8(lowercase(p.name@))
}

/// How `p` compares to `q` by `col`: -1, 0 or 1.
pub open spec fn column_order(col: SortColumn, p: ProcessInfo, q: ProcessInfo) -> int {
    match col {
        SortColumn::Cpu => three_way(cpu_order(p.cpu_bits), cpu_order(q.cpu_bits)),
        SortColumn::Memory => three_way(p.memory as int, q.memory as int),
        SortColumn::Pid => three_way(p.pid as int, q.pid as int),
        SortColumn::Name => lex_order(name_key(p), name_key(q)),
    }
}

/// Whether process index `a` comes before index `b`: by `col` in the given
/// direction, and between equal processes by index, ascending or descending.
pub open spec fn precedes(
    procs: Seq<ProcessInfo>,
    col: SortColumn,
    key_asc: bool,
    index_asc: bool,
    a: int,
    b: int,
) -> bool {
    let c = column_order(col, procs[a], procs[b]);
    let d = if key_asc { c } else { -c };
    d < 0 || (d == 0 && (if index_asc { a < b } else { a > b }))
}

/// `s` is strictly increasing in the order `precedes`.
pub open spec fn sorted_by(
    procs: Seq<ProcessInfo>,
    col: SortColumn,
    key_asc: bool,
    index_asc: bool,
    s: Seq<usize>,
) -> bool {
    forall|i: int, j: int| 0 <= i < j < s.len()
        ==> precedes(procs, col, key_asc, index_asc, #[trigger] s[i] as int, #[trigger] s[j] as int)
}

proof fn lemma_lex_from_antisym(a: Seq<u8>, b: Seq<u8>, i: int)
    requires
        0 <= i,
    ensures
        lex_order_from(a, b, i) == -lex_order_from(b, a, i),
        -1 <= lex_order_from(a, b, i) <= 1,
    decreases a.len() - i,
{
    if i < a.len() && i < b.len() && a[i] == b[i] {
        lemma_lex_from_antisym(a, b, i + 1);
    }
}

proof fn lemma_lex_from_trans(a: Seq<u8>, b: Seq<u8>, c: Seq<u8>, i: int)
    requires
        0 <= i,
        lex_order_from(a, b, i) <= 0,
        lex_order_from(b, c, i) <= 0,
    ensures
        lex_order_from(a, c, i) <= 0,
        lex_order_from(a, b, i) < 0 || lex_order_from(b, c, i) < 0 ==> lex_order_from(a, c, i) < 0,
    decreases a.len() - i,
{
    if i < a.len() && i < b.len() && i < c.len() && a[i] == b[i] && b[i] == c[i] {
        lemma_lex_from_trans(a, b, c, i + 1);
    }
}

/// Comparisons by a column are antisymmetric and transitive: the column
/// order is a total preorder.
pub proof fn lemma_column_order_order(col: SortColumn, p: ProcessInfo, q: ProcessInfo, r: ProcessInfo)
    ensures
        column_order(col, p, q) == -column_order(col, q, p),
        -1 <= column_order(col, p, q) <= 1,
        column_order(col, p, q) <= 0 && column_order(col, q, r) <= 0 ==> column_order(col, p, r) <= 0,
        (column_order(col, p, q) < 0 && column_order(col, q, r) <= 0) ==> column_order(col, p, r) < 0,
        (column_order(col, p, q) <= 0 && column_order(col, q, r) < 0) ==> column_order(col, p, r) < 0,
{
    match col {
        SortColumn::Name => {
            lemma_lex_from_antisym(name_key(p), name_key(q), 0);
            if column_order(col, p, q) <= 0 && column_order(col, q, r) <= 0 {
                lemma_lex_from_trans(name_key(p), name_key(q), name_key(r), 0);
            }
        },
        _ => {},
    }
}

/// `precedes` is a strict total order on distinct indices.
pub proof fn lemma_precedes_order(
    procs: Seq<ProcessInfo>,
    col: SortColumn,
    key_asc: bool,
    index_asc: bool,
    a: int,
    b: int,
    c: int,
)
    ensures
        !precedes(procs, col, key_asc, index_asc, a, a),
        a != b ==> (precedes(procs, col, key_asc, index_asc, a, b) <==> !precedes(procs, col, key_asc, index_asc, b, a)),
        precedes(procs, col, key_asc, index_asc, a, b) && precedes(procs, col, key_asc, index_asc, b, c)
            ==> precedes(procs, col, key_asc, index_asc, a, c),
{
    lemma_column_order_order(col, procs[a], procs[a], procs[a]);
    lemma_column_order_order(col, procs[a], procs[b], procs[c]);
    lemma_column_order_order(col, procs[a], procs[c], procs[b]);
    lemma_column_order_order(col, procs[b], procs[a], procs[c]);
    lemma_column_order_order(col, procs[b], procs[c], procs[a]);
    lemma_column_order_order(col, procs[c], procs[a], procs[b]);
    lemma_column_order_order(col, procs[c], procs[b], procs[a]);
}

/// In a sequence sorted by `precedes`, the processes' keys by `col` never
/// decrease when `key_asc` holds and never increase otherwise.
pub proof fn lemma_sorted_keys(
    procs: Seq<ProcessInfo>,
    col: SortColumn,
    key_asc: bool,
    index_asc: bool,
    s: Seq<usize>,
)
    requires
        sorted_by(procs, col, key_asc, index_asc, s),
    ensures
        forall|i: int, j: int| 0 <= i < j < s.len() ==> {
            &&& key_asc ==> column_order(col, procs[#[trigger] s[i] as int], procs[#[trigger] s[j] as int]) <= 0
            &&& !key_asc ==> column_order(col, procs[s[i] as int], procs[s[j] as int]) >= 0
        },
{
    assert forall|i: int, j: int| 0 <= i < j < s.len() implies {
        &&& key_asc ==> column_order(col, procs[#[trigger] s[i] as int], procs[#[trigger] s[j] as int]) <= 0
        &&& !key_asc ==> column_order(col, procs[s[i] as int], procs[s[j] as int]) >= 0
    } by {
        assert(precedes(procs, col, key_asc, index_asc, s[i] as int, s[j] as int));
    }
}

/// A sequence strictly increasing in `precedes` holds no index twice.
pub proof fn lemma_sorted_no_duplicates(
    procs: Seq<ProcessInfo>,
    col: SortColumn,
    key_asc: bool,
    index_asc: bool,
    s: Seq<usize>,
)
    requires
        sorted_by(procs, col, key_asc, index_asc, s),
    ensures
        s.no_duplicates(),
{
    assert forall|i: int, j: int| 0 <= i < s.len() && 0 <= j < s.len() && i != j implies s[i] != s[j] by {
        if s[i] == s[j] {
            lemma_precedes_order(procs, col, key_asc, index_asc, s[i] as int, s[i] as int, s[i] as int);
            if i < j {
                assert(precedes(procs, col, key_asc, index_asc, s[i] as int, s[j] as int));
            } else {
                assert(precedes(procs, col, key_asc, index_asc, s[j] as int, s[i] as int));
            }
        }
    }
}

/// Two sequences strictly increasing in `precedes` that hold the same
/// indices are the same sequence: a sorted view is determined by what it
/// lists.
pub proof fn lemma_sorted_unique(
    procs: Seq<ProcessInfo>,
    col: SortColumn,
    key_asc: bool,
    index_asc: bool,
    s: Seq<usize>,
    t: Seq<usize>,
)
    requires
        sorted_by(procs, col, key_asc, index_asc, s),
        sorted_by(procs, col, key_asc, index_asc, t),
        forall|x: usize| s.contains(x) <==> t.contains(x),
    ensures
        s == t,
    decreases s.len(),
{
    if s.len() == 0 || t.len() == 0 {
        if s.len() > 0 {
            assert(s.contains(s[0]));
        }
        if t.len() > 0 {
            assert(t.contains(t[0]));
        }
        assert(s =~= t);
    } else {
        lemma_sorted_no_duplicates(procs, col, key_asc, index_asc, s);
        lemma_sorted_no_duplicates(procs, col, key_asc, index_asc, t);
        if s[0] != t[0] {
            assert(s.contains(s[0]));
            let k = choose|k: int| 0 <= k < t.len() && t[k] == s[0];
            assert(t.contains(t[0]));
            let m = choose|m: int| 0 <= m < s.len() && s[m] == t[0];
            assert(precedes(procs, col, key_asc, index_asc, t[0] as int, t[k] as int));
            assert(precedes(procs, col, key_asc, index_asc, s[0] as int, s[m] as int));
            lemma_precedes_order(procs, col, key_asc, index_asc, s[0] as int, t[0] as int, s[0] as int);
        }
        let s1 = s.drop_first();
        let t1 = t.drop_first();
        assert forall|x: usize| s1.contains(x) <==> t1.contains(x) by {
            if s1.contains(x) {
                let i = choose|i: int| 0 <= i < s1.len() && s1[i] == x;
                assert(s[i + 1] == x);
                assert(s.contains(x));
                let j = choose|j: int| 0 <= j < t.len() && t[j] == x;
                assert(j != 0);
                assert(t1[j - 1] == x);
            }
            if t1.contains(x) {
                let i = choose|i: int| 0 <= i < t1.len() && t1[i] == x;
                assert(t[i + 1] == x);
                assert(t.contains(x));
                let j = choose|j: int| 0 <= j < s.len() && s[j] == x;
                assert(j != 0);
                assert(s1[j - 1] == x);
            }
        }
        assert(sorted_by(procs, col, key_asc, index_asc, s1)) by {
            assert forall|i: int, j: int| 0 <= i < j < s1.len() implies
                precedes(procs, col, key_asc, index_asc, #[trigger] s1[i] as int, #[trigger] s1[j] as int) by {
                assert(s1[i] == s[i + 1] && s1[j] == s[j + 1]);
            }
        }
        assert(sorted_by(procs, col, key_asc, index_asc, t1)) by {
            assert forall|i: int, j: int| 0 <= i < j < t1.len() implies
                precedes(procs, col, key_asc, index_asc, #[trigger] t1[i] as int, #[trigger] t1[j] as int) by {
                assert(t1[i] == t[i + 1] && t1[j] == t[j + 1]);
            }
        }
        lemma_sorted_unique(procs, col, key_asc, index_asc, s1, t1);
        assert(s =~= seq![s[0]] + s1);
        assert(t =~= seq![t[0]] + t1);
    }
}

fn lex_compare(a: &[u8], b: &[u8]) -> (r: i8)
    ensures
        r == lex_order(a@, b@),
{
    let mut i: usize = 0;
    while i < a.len() && i < b.len()
        invariant
            i <= a@.len(),
            i <= b@.len(),
            lex_order(a@, b@) == lex_order_from(a@, b@, i as int),
        decreases a@.len() - i,
    {
        if a[i] < b[i] {
            return -1;
        } else if a[i] > b[i] {
            return 1;
        }
        i = i + 1;
    }
    if i < a.len() {
        1
    } else if i < b.len() {
        -1
    } else {
        0
    }
}

fn cpu_order_exec(bits: u32) -> (r: u64)
    ensures
        r == cpu_order(bits),
{
    let magnitude = bits % 0x8000_0000;
    if bits >= 0x8000_0000 {
        0x8000_0000u64 - magnitude as u64
    } else {
        0x8000_0000u64 + magnitude as u64
    }
}

fn int_compare(a: u64, b: u64) -> (r: i8)
    ensures
        r == three_way(a as int, b as int),
{
    if a < b {
        -1
    } else if a > b {
        1
    } else {
        0
    }
}

/// The lowercase names of `procs`, one per process.
pub open spec fn lowered_names(procs: Seq<ProcessInfo>, lowered: Seq<String>) -> bool {
    &&& lowered.len() == procs.len()
    &&& forall|i: int| 0 <= i < procs.len() ==> (#[trigger] lowered[i])@ == lowercase(procs[i].name@)
}

/// Computes the lowercase name of every process.
pub(crate) fn lower_names(procs: &Vec<ProcessInfo>) -> (r: Vec<String>)
    ensures
        lowered_names(procs@, r@),
{
    let mut r: Vec<String> = Vec::new();
    let mut i: usize = 0;
    while i < procs.len()
        invariant
            i <= procs@.len(),
            r@.len() == i,
            forall|j: int| 0 <= j < i ==> (#[trigger] r@[j])@ == lowercase(procs@[j].name@),
        decreases procs@.len() - i,
    {
        r.push(to_lowercase(procs[i].name.as_str()));
        i = i + 1;
    }
    r
}

fn compare_processes(
    procs: &Vec<ProcessInfo>,
    lowered: &Vec<String>,
    col: SortColumn,
    a: usize,
    b: usize,
) -> (r: i8)
    requires
        a < procs@.len(),
        b < procs@.len(),
        lowered_names(procs@, lowered@),
    ensures
        r == column_order(col, procs@[a as int], procs@[b as int]),
        -1 <= r <= 1,
{
    proof {
        lemma_column_order_order(col, procs@[a as int], procs@[b as int], procs@[b as int]);
    }
    match col {
        SortColumn::Cpu => int_compare(cpu_order_exec(procs[a].cpu_bits), cpu_order_exec(procs[b].cpu_bits)),
        SortColumn::Memory => int_compare(procs[a].memory, procs[b].memory),
        SortColumn::Pid => int_compare(procs[a].pid as u64, procs[b].pid as u64),
        SortColumn::Name => {
            let x = lowered[a].as_str().as_bytes();
            let y = lowered[b].as_str().as_bytes();
            lex_compare(x, y)
        },
    }
}

fn precedes_exec(
    procs: &Vec<ProcessInfo>,
    lowered: &Vec<String>,
    col: SortColumn,
    key_asc: bool,
    index_asc: bool,
    a: usize,
    b: usize,
) -> (r: bool)
    requires
        a < procs@.len(),
        b < procs@.len(),
        lowered_names(procs@, lowered@),
    ensures
        r == precedes(procs@, col, key_asc, index_asc, a as int, b as int),
{
    let c = compare_processes(procs, lowered, col, a, b);
    let d = if key_asc { c } else { -c };
    d < 0 || (d == 0 && (if index_asc { a < b } else { a > b }))
}

/// Sorts distinct process indices into the order `precedes`.
pub(crate) fn sort_indices(
    procs: &Vec<ProcessInfo>,
    lowered: &Vec<String>,
    idxs: &Vec<usize>,
    col: SortColumn,
    key_asc: bool,
    index_asc: bool,
) -> (r: Vec<usize>)
    requires
        lowered_names(procs@, lowered@),
        forall|i: int| 0 <= i < idxs@.len() ==> #[trigger] idxs@[i] < procs@.len(),
        forall|i: int, j: int| 0 <= i < j < idxs@.len() ==> #[trigger] idxs@[i] != #[trigger] idxs@[j],
    ensures
        r@.len() == idxs@.len(),
        sorted_by(procs@, col, key_asc, index_asc, r@),
        forall|x: usize| r@.contains(x) <==> idxs@.contains(x),
{
    let mut r: Vec<usize> = Vec::new();
    let mut k: usize = 0;
    while k < idxs.len()
        invariant
            lowered_names(procs@, lowered@),
            forall|i: int| 0 <= i < idxs@.len() ==> #[trigger] idxs@[i] < procs@.len(),
            forall|i: int, j: int| 0 <= i < j < idxs@.len() ==> #[trigger] idxs@[i] != #[trigger] idxs@[j],
            k <= idxs@.len(),
            r@.len() == k,
            forall|i: int| 0 <= i < r@.len() ==> #[trigger] r@[i] < procs@.len(),
            sorted_by(procs@, col, key_asc, index_asc, r@),
            forall|x: usize| r@.contains(x) <==> idxs@.subrange(0, k as int).contains(x),
        decreases idxs@.len() - k,
    {
        let x = idxs[k];
        let mut p: usize = 0;
        while p < r.len() && !precedes_exec(procs, lowered, col, key_asc, index_asc, x, r[p])
            invariant
                lowered_names(procs@, lowered@),
                x < procs@.len(),
                p <= r@.len(),
                forall|i: int| 0 <= i < r@.len() ==> #[trigger] r@[i] < procs@.len(),
                forall|q: int| 0 <= q < p ==> !precedes(procs@, col, key_asc, index_asc, x as int, #[trigger] r@[q] as int),
            decreases r@.len() - p,
        {
            p = p + 1;
        }
        let ghost old_r = r@;
        proof {
            assert(!old_r.contains(x)) by {
                if old_r.contains(x) {
                    let w = choose|w: int| 0 <= w < old_r.len() && old_r[w] == x;
                    assert(idxs@.subrange(0, k as int).contains(x));
                    let v = choose|v: int| 0 <= v < k && idxs@.subrange(0, k as int)[v] == x;
                    assert(idxs@[v] == idxs@[k as int]);
                }
            }
            assert forall|q: int| 0 <= q < p implies precedes(procs@, col, key_asc, index_asc, #[trigger] old_r[q] as int, x as int) by {
                assert(old_r.contains(old_r[q]));
                lemma_precedes_order(procs@, col, key_asc, index_asc, x as int, old_r[q] as int, x as int);
            }
            assert forall|q: int| p <= q < old_r.len() implies precedes(procs@, col, key_asc, index_asc, x as int, #[trigger] old_r[q] as int) by {
                if q > p {
                    lemma_precedes_order(procs@, col, key_asc, index_asc, x as int, old_r[p as int] as int, old_r[q] as int);
                }
            }
        }
        r.insert(p, x);
        proof {
            let nr = r@;
            assert(nr == old_r.insert(p as int, x));
            assert forall|i: int, j: int| 0 <= i < j < nr.len() implies
                precedes(procs@, col, key_asc, index_asc, #[trigger] nr[i] as int, #[trigger] nr[j] as int) by {
                if j < p {
                    assert(nr[i] == old_r[i] && nr[j] == old_r[j]);
                } else if j == p {
                    assert(nr[i] == old_r[i]);
                } else if i < p {
                    assert(nr[i] == old_r[i] && nr[j] == old_r[j - 1]);
                    lemma_precedes_order(procs@, col, key_asc, index_asc, old_r[i] as int, x as int, old_r[j - 1] as int);
                } else if i == p {
                    assert(nr[j] == old_r[j - 1]);
                } else {
                    assert(nr[i] == old_r[i - 1] && nr[j] == old_r[j - 1]);
                }
            }
            let prefix = idxs@.subrange(0, k as int);
            let next = idxs@.subrange(0, k + 1);
            assert(next =~= prefix.push(x));
            assert forall|y: usize| nr.contains(y) implies next.contains(y) by {
                let w = choose|w: int| 0 <= w < nr.len() && nr[w] == y;
                if w < p {
                    assert(old_r[w] == y);
                    assert(old_r.contains(y));
                    let v = choose|v: int| 0 <= v < prefix.len() && prefix[v] == y;
                    assert(next[v] == y);
                } else if w > p {
                    assert(old_r[w - 1] == y);
                    assert(old_r.contains(y));
                    let v = choose|v: int| 0 <= v < prefix.len() && prefix[v] == y;
                    assert(next[v] == y);
                } else {
                    assert(next[k as int] == y);
                }
            }
            assert forall|y: usize| next.contains(y) implies nr.contains(y) by {
                let v = choose|v: int| 0 <= v < next.len() && next[v] == y;
                if v < k {
                    assert(prefix[v] == y);
                    assert(prefix.contains(y));
                    assert(old_r.contains(y));
                    let w = choose|w: int| 0 <= w < old_r.len() && old_r[w] == y;
                    if w < p {
                        assert(nr[w] == y);
                    } else {
                        assert(nr[w + 1] == y);
                    }
                } else {
                    assert(nr[p as int] == y);
                }
            }
        }
        k = k + 1;
    }
    assert(idxs@.subrange(0, k as int) =~= idxs@);
    r
}

} // verus!
