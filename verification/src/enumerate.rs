//! The device enumerator: which windows can be captured, and which process
//! is the target.

use crate::text::{
    chars_le, eq_ignore_ascii_case, eq_ignoring_ascii_case, lemma_lex_le_total,
    lemma_lex_le_transitive, lex_le, lowercase, str_eq, to_chars, to_lowercase,
};
use std::collections::HashMap;
use vstd::prelude::*;
use vstd::utf8::encode_utf8;

verus! {

/// A top-level window and the process that owns it.
#[derive(Clone, Debug)]
pub struct WindowInfo {
    pub pid: u32,
    pub hwnd: u64,
    pub title: String,
    pub exe_name: String,
}

/// Whether a title belongs to a window of the shell itself.
pub open spec fn is_system_title(title: Seq<char>) -> bool {
    ||| title == "Program Manager"@
    ||| title == "Windows Input Experience"@
    ||| title == "MSCTFIME UI"@
    ||| title == "Default IME"@
}

/// Whether a window is listed: it is visible, has a title that is not one of
/// the shell's, and its owning process is known.
pub open spec fn is_capturable(visible: bool, title: Seq<char>, pid: u32) -> bool {
    visible && title.len() > 0 && !is_system_title(title) && pid != 0
}

/// Whether a window is listed for capture.
pub fn is_capturable_window(visible: bool, title: &str, pid: u32) -> (listed: bool)
    ensures
        listed == is_capturable(visible, title@, pid),
{
    if !visible || title.is_empty() {
        return false;
    }
    if str_eq(title, "Program Manager") || str_eq(title, "Windows Input Experience") || str_eq(
        title,
        "MSCTFIME UI",
    ) || str_eq(title, "Default IME") {
        return false;
    }
    pid != 0
}

/// Where the file name begins in a path: behind the last backslash.
pub open spec fn file_name_start(path: Seq<char>) -> int
    decreases path.len(),
{
    if path.len() == 0 || path.last() == '\\' {
        path.len() as int
    } else {
        file_name_start(path.drop_last())
    }
}

/// The file name of a path: what follows the last backslash, or the whole
/// path where there is none.
pub open spec fn file_name(path: Seq<char>) -> Seq<char> {
    path.subrange(file_name_start(path), path.len() as int)
}

/// The file name holds no backslash and is preceded by one, unless it is the
/// whole path.
pub proof fn lemma_file_name_start(path: Seq<char>)
    ensures
        0 <= file_name_start(path) <= path.len(),
        forall|j: int| file_name_start(path) <= j < path.len() ==> #[trigger] path[j] != '\\',
        file_name_start(path) > 0 ==> path[file_name_start(path) - 1] == '\\',
    decreases path.len(),
{
    if !(path.len() == 0 || path.last() == '\\') {
        let rest = path.drop_last();
        lemma_file_name_start(rest);
        assert forall|j: int| file_name_start(path) <= j < path.len() implies #[trigger] path[j]
            != '\\' by {
            if j < rest.len() {
                assert(path[j] == rest[j]);
            }
        }
    }
}

/// The executable's name from the full path of its image.
pub fn exe_name_from_path(path: &str) -> (name: String)
    ensures
        name@ == file_name(path@),
{
    let chars = to_chars(path);
    let n = chars.len();
    let mut start: usize = n;
    assert(chars@.subrange(0, n as int) =~= chars@);
    while start > 0 && chars[start - 1] != '\\'
        invariant
            n == chars@.len(),
            start <= n,
            file_name_start(chars@) == file_name_start(chars@.subrange(0, start as int)),
        decreases start,
    {
        proof {
            let prefix = chars@.subrange(0, start as int);
            assert(prefix.last() == chars@[start - 1]);
            assert(prefix.drop_last() =~= chars@.subrange(0, start - 1));
        }
        start -= 1;
    }
    proof {
        let prefix = chars@.subrange(0, start as int);
        if start > 0 {
            assert(prefix.last() == chars@[start - 1]);
        }
        assert(file_name_start(prefix) == start);
    }
    path.substring_char(start, n).to_owned()
}

/// Length of a window's title in bytes.
pub open spec fn title_len(window: WindowInfo) -> nat {
    encode_utf8(window.title@).len()
}

/// The key a window is sorted by: its title in lower case.
pub open spec fn sort_key(window: WindowInfo) -> Seq<char> {
    lowercase(window.title@)
}

/// Whether `windows[j]` is the entry that stands for its process among the
/// first `n`: none of them has a longer title, and of those as long it is the
/// first.
pub open spec fn is_best(windows: Seq<WindowInfo>, n: int, j: int) -> bool {
    &&& 0 <= j < n
    &&& forall|i: int|
        0 <= i < n && (#[trigger] windows[i]).pid == windows[j].pid ==> title_len(windows[i])
            < title_len(windows[j]) || (title_len(windows[i]) == title_len(windows[j]) && j <= i)
}

/// No two entries belong to the same process.
pub open spec fn distinct_pids(windows: Seq<WindowInfo>) -> bool {
    forall|i: int, j: int|
        0 <= i < j < windows.len() ==> (#[trigger] windows[i]).pid != (#[trigger] windows[j]).pid
}

/// Whether `entry` is the window that stands for its process among the first
/// `n` of `windows`.
pub open spec fn stands_for(windows: Seq<WindowInfo>, n: int, entry: WindowInfo) -> bool {
    exists|j: int| is_best(windows, n, j) && windows[j] == entry
}

/// Whether the process `pid` has an entry in `chosen`.
pub open spec fn has_entry(chosen: Seq<WindowInfo>, pid: u32) -> bool {
    exists|k: int| 0 <= k < chosen.len() && (#[trigger] chosen[k]).pid == pid
}

/// Every entry of `chosen` stands for its process among the first `n` of
/// `windows`, and every process among them has exactly one entry.
pub open spec fn represents(windows: Seq<WindowInfo>, n: int, chosen: Seq<WindowInfo>) -> bool {
    &&& distinct_pids(chosen)
    &&& forall|k: int| 0 <= k < chosen.len() ==> stands_for(windows, n, #[trigger] chosen[k])
    &&& forall|j: int| 0 <= j < n ==> has_entry(chosen, (#[trigger] windows[j]).pid)
}

/// Ascending by title, ignoring case.
pub open spec fn sorted_by_title(windows: Seq<WindowInfo>) -> bool {
    forall|i: int, j: int|
        0 <= i < j < windows.len() ==> lex_le(
            sort_key(#[trigger] windows[i]),
            sort_key(#[trigger] windows[j]),
        )
}

/// Length of a window's title in bytes.
fn title_bytes(window: &WindowInfo) -> (len: usize)
    ensures
        len == title_len(*window),
{
    window.title.as_str().as_bytes().len()
}

/// Position of the entry of process `pid`; the length where it has none.
pub open spec fn entry_position(chosen: Seq<WindowInfo>, pid: u32) -> int
    decreases chosen.len(),
{
    if chosen.len() == 0 {
        0
    } else if chosen[0].pid == pid {
        0
    } else {
        1 + entry_position(chosen.drop_first(), pid)
    }
}

/// The entries after one more window: a window of a new process is added at
/// the end, one with a longer title replaces the entry of its process.
pub open spec fn with_window(chosen: Seq<WindowInfo>, window: WindowInfo) -> Seq<WindowInfo> {
    let at = entry_position(chosen, window.pid);
    if at >= chosen.len() {
        chosen.push(window)
    } else if title_len(window) > title_len(chosen[at]) {
        chosen.update(at, window)
    } else {
        chosen
    }
}

/// The entries chosen from the first `n` windows: one for each process, in
/// the order in which the processes first appear.
pub open spec fn chosen_from(windows: Seq<WindowInfo>, n: int) -> Seq<WindowInfo>
    decreases n,
{
    if n <= 0 {
        Seq::empty()
    } else {
        with_window(chosen_from(windows, n - 1), windows[n - 1])
    }
}

/// Where a window with the key `key` goes in a sorted list: behind every
/// entry whose key does not come after it.
pub open spec fn insertion_point(sorted: Seq<WindowInfo>, key: Seq<char>) -> int
    decreases sorted.len(),
{
    if sorted.len() == 0 {
        0
    } else if lex_le(sort_key(sorted.last()), key) {
        sorted.len() as int
    } else {
        insertion_point(sorted.drop_last(), key)
    }
}

/// The first `n` windows sorted by title; windows with the same key keep
/// their order.
pub open spec fn sorted_from(windows: Seq<WindowInfo>, n: int) -> Seq<WindowInfo>
    decreases n,
{
    if n <= 0 {
        Seq::empty()
    } else {
        let before = sorted_from(windows, n - 1);
        before.insert(insertion_point(before, sort_key(windows[n - 1])), windows[n - 1])
    }
}

/// The listing of the windows found: one entry for each process, sorted by
/// title without regard to case.
pub open spec fn listing_of(windows: Seq<WindowInfo>) -> Seq<WindowInfo> {
    let chosen = chosen_from(windows, windows.len() as int);
    sorted_from(chosen, chosen.len() as int)
}

/// The position found is the first entry of the process, and the length
/// exactly where the process has none.
pub proof fn lemma_entry_position(chosen: Seq<WindowInfo>, pid: u32)
    ensures
        0 <= entry_position(chosen, pid) <= chosen.len(),
        entry_position(chosen, pid) < chosen.len() ==> chosen[entry_position(chosen, pid)].pid
            == pid,
        forall|k: int|
            0 <= k < entry_position(chosen, pid) ==> (#[trigger] chosen[k]).pid != pid,
    decreases chosen.len(),
{
    if chosen.len() > 0 && chosen[0].pid != pid {
        let rest = chosen.drop_first();
        lemma_entry_position(rest, pid);
        assert forall|k: int| 0 <= k < entry_position(chosen, pid) implies (
        #[trigger] chosen[k]).pid != pid by {
            if k > 0 {
                assert(chosen[k] == rest[k - 1]);
            }
        }
    }
}

/// A window of a process that has no entry yet becomes its entry.
proof fn lemma_represents_new(windows: Seq<WindowInfo>, n: int, chosen: Seq<WindowInfo>)
    requires
        0 <= n < windows.len(),
        represents(windows, n, chosen),
        forall|k: int| 0 <= k < chosen.len() ==> (#[trigger] chosen[k]).pid != windows[n].pid,
    ensures
        represents(windows, n + 1, chosen.push(windows[n])),
{
    let after = chosen.push(windows[n]);
    assert forall|i: int|
        0 <= i < n + 1 && (#[trigger] windows[i]).pid == windows[n].pid implies i == n by {
        if i < n {
            assert(has_entry(chosen, windows[i].pid));
            let k = choose|k: int| 0 <= k < chosen.len() && (#[trigger] chosen[k]).pid
                == windows[i].pid;
            assert(chosen[k].pid != windows[n].pid);
        }
    }
    assert(is_best(windows, n + 1, n));
    assert forall|k: int| 0 <= k < after.len() implies stands_for(
        windows,
        n + 1,
        #[trigger] after[k],
    ) by {
        if k < chosen.len() {
            assert(stands_for(windows, n, chosen[k]));
            let j = choose|j: int| is_best(windows, n, j) && windows[j] == chosen[k];
            assert(after[k] == chosen[k]);
            assert(is_best(windows, n + 1, j));
        } else {
            assert(is_best(windows, n + 1, n) && windows[n] == after[k]);
        }
    }
    assert forall|j: int| 0 <= j < n + 1 implies has_entry(after, (#[trigger] windows[j]).pid) by {
        if j < n {
            assert(has_entry(chosen, windows[j].pid));
            let k = choose|k: int| 0 <= k < chosen.len() && (#[trigger] chosen[k]).pid
                == windows[j].pid;
            assert(after[k] == chosen[k]);
        } else {
            assert(after[chosen.len() as int].pid == windows[j].pid);
        }
    }
    assert(distinct_pids(after)) by {
        assert forall|i: int, j: int| 0 <= i < j < after.len() implies (#[trigger] after[i]).pid
            != (#[trigger] after[j]).pid by {
            assert(after[i] == chosen[i]);
            if j < chosen.len() {
                assert(after[j] == chosen[j]);
            }
        }
    }
}

/// A window of a process that has an entry takes its place if its title is
/// longer, and changes nothing otherwise.
proof fn lemma_represents_seen(
    windows: Seq<WindowInfo>,
    n: int,
    chosen: Seq<WindowInfo>,
    at: int,
    after: Seq<WindowInfo>,
)
    requires
        0 <= n < windows.len(),
        represents(windows, n, chosen),
        0 <= at < chosen.len(),
        chosen[at].pid == windows[n].pid,
        after == if title_len(windows[n]) > title_len(chosen[at]) {
            chosen.update(at, windows[n])
        } else {
            chosen
        },
    ensures
        represents(windows, n + 1, after),
{
    assert(stands_for(windows, n, chosen[at]));
    let held = choose|j: int| is_best(windows, n, j) && windows[j] == chosen[at];
    let winner = if title_len(windows[n]) > title_len(chosen[at]) {
        n
    } else {
        held
    };
    assert(after[at] == windows[winner]);
    assert(is_best(windows, n + 1, winner));
    assert forall|k: int| 0 <= k < after.len() implies stands_for(
        windows,
        n + 1,
        #[trigger] after[k],
    ) by {
        if k != at {
            assert(stands_for(windows, n, chosen[k]));
            let j = choose|j: int| is_best(windows, n, j) && windows[j] == chosen[k];
            assert(after[k] == chosen[k]);
            if k < at {
                assert(chosen[k].pid != chosen[at].pid);
            } else {
                assert(chosen[at].pid != chosen[k].pid);
            }
            assert(is_best(windows, n + 1, j));
        } else {
            assert(is_best(windows, n + 1, winner) && windows[winner] == after[k]);
        }
    }
    assert forall|j: int| 0 <= j < n + 1 implies has_entry(after, (#[trigger] windows[j]).pid) by {
        if j < n {
            assert(has_entry(chosen, windows[j].pid));
            let k = choose|k: int| 0 <= k < chosen.len() && (#[trigger] chosen[k]).pid
                == windows[j].pid;
            assert(after[k].pid == chosen[k].pid);
        } else {
            assert(after[at].pid == windows[j].pid);
        }
    }
    assert(distinct_pids(after)) by {
        assert forall|i: int, j: int| 0 <= i < j < after.len() implies (#[trigger] after[i]).pid
            != (#[trigger] after[j]).pid by {
            assert(after[i].pid == chosen[i].pid);
            assert(after[j].pid == chosen[j].pid);
        }
    }
}

/// The chosen entries stand for the processes of the windows: every process
/// has exactly one entry, the window of that process with the longest title,
/// and of several as long the first.
pub proof fn lemma_chosen_represents(windows: Seq<WindowInfo>, n: int)
    requires
        0 <= n <= windows.len(),
    ensures
        represents(windows, n, chosen_from(windows, n)),
    decreases n,
{
    if n > 0 {
        lemma_chosen_represents(windows, n - 1);
        let before = chosen_from(windows, n - 1);
        let window = windows[n - 1];
        lemma_entry_position(before, window.pid);
        let at = entry_position(before, window.pid);
        if at >= before.len() {
            lemma_represents_new(windows, n - 1, before);
        } else {
            lemma_represents_seen(windows, n - 1, before, at, chosen_from(windows, n));
        }
    }
}

/// Whether the index leads from every chosen process to its entry, and to
/// nothing else.
pub open spec fn is_index(by_pid: Map<u32, usize>, chosen: Seq<WindowInfo>) -> bool {
    &&& forall|pid: u32| #[trigger]
        by_pid.contains_key(pid) ==> by_pid[pid] < chosen.len() && chosen[by_pid[pid] as int].pid
            == pid
    &&& forall|i: int|
        0 <= i < chosen.len() ==> by_pid.contains_key((#[trigger] chosen[i]).pid)
            && by_pid[chosen[i].pid] == i
}

/// What the index finds is the position of the entry.
proof fn lemma_index_finds_entry(by_pid: Map<u32, usize>, chosen: Seq<WindowInfo>, pid: u32)
    requires
        is_index(by_pid, chosen),
        distinct_pids(chosen),
    ensures
        by_pid.contains_key(pid) ==> by_pid[pid] == entry_position(chosen, pid),
        !by_pid.contains_key(pid) ==> entry_position(chosen, pid) == chosen.len(),
{
    lemma_entry_position(chosen, pid);
    let at = entry_position(chosen, pid);
    if by_pid.contains_key(pid) {
        let found = by_pid[pid] as int;
        if at < found {
            assert(chosen[at].pid != chosen[found].pid);
        } else if found < at {
            assert(chosen[found].pid != pid);
        }
    } else if at < chosen.len() {
        assert(by_pid.contains_key(chosen[at].pid));
    }
}

/// Keeps one window for each process: the one with the longest title, the
/// first of them where several are as long. Processes stay in the order in
/// which they first appear.
pub fn dedup_by_pid(windows: Vec<WindowInfo>) -> (chosen: Vec<WindowInfo>)
    ensures
        chosen@ == chosen_from(windows@, windows@.len() as int),
{
    broadcast use vstd::std_specs::hash::group_hash_axioms;

    let mut chosen: Vec<WindowInfo> = Vec::new();
    let mut by_pid: HashMap<u32, usize> = HashMap::new();
    for window in it: windows
        invariant
            it.seq() == windows@,
            chosen@ == chosen_from(windows@, it.index() as int),
            is_index(by_pid@, chosen@),
    {
        assert(window == windows@[it.index() as int]);
        proof {
            lemma_chosen_represents(windows@, it.index() as int);
            lemma_index_finds_entry(by_pid@, chosen@, window.pid);
        }
        let found: Option<usize> = match by_pid.get(&window.pid) {
            Some(at) => Some(*at),
            None => None,
        };
        match found {
            None => {
                by_pid.insert(window.pid, chosen.len());
                chosen.push(window);
            },
            Some(at) => {
                if title_bytes(&window) > title_bytes(&chosen[at]) {
                    chosen[at] = window;
                }
            },
        }
    }
    chosen
}

/// The insertion point lies behind the entries that do not come after the
/// key and before those that do.
pub proof fn lemma_insertion_point(sorted: Seq<WindowInfo>, key: Seq<char>)
    ensures
        0 <= insertion_point(sorted, key) <= sorted.len(),
        insertion_point(sorted, key) > 0 ==> lex_le(
            sort_key(sorted[insertion_point(sorted, key) - 1]),
            key,
        ),
        forall|k: int|
            insertion_point(sorted, key) <= k < sorted.len() ==> !lex_le(
                sort_key(#[trigger] sorted[k]),
                key,
            ),
    decreases sorted.len(),
{
    if sorted.len() > 0 && !lex_le(sort_key(sorted.last()), key) {
        let rest = sorted.drop_last();
        lemma_insertion_point(rest, key);
        assert forall|k: int| insertion_point(sorted, key) <= k < sorted.len() implies !lex_le(
            sort_key(#[trigger] sorted[k]),
            key,
        ) by {
            if k < rest.len() {
                assert(sorted[k] == rest[k]);
            }
        }
    }
}

/// Inserting a window at its insertion point keeps the list sorted.
proof fn lemma_insert_keeps_sorted(sorted: Seq<WindowInfo>, window: WindowInfo)
    requires
        sorted_by_title(sorted),
    ensures
        sorted_by_title(sorted.insert(insertion_point(sorted, sort_key(window)), window)),
{
    let key = sort_key(window);
    let at = insertion_point(sorted, key);
    let after = sorted.insert(at, window);
    lemma_insertion_point(sorted, key);
    assert forall|i: int, j: int| 0 <= i < j < after.len() implies lex_le(
        sort_key(#[trigger] after[i]),
        sort_key(#[trigger] after[j]),
    ) by {
        let bi = if i < at {
            i
        } else {
            i - 1
        };
        let bj = if j < at {
            j
        } else {
            j - 1
        };
        if i != at && j != at {
            assert(after[i] == sorted[bi]);
            assert(after[j] == sorted[bj]);
        } else if i == at {
            assert(after[j] == sorted[bj]);
            assert(!lex_le(sort_key(sorted[bj]), key));
            lemma_lex_le_total(key, sort_key(sorted[bj]), 0);
        } else {
            assert(after[i] == sorted[bi]);
            if bi < at - 1 {
                assert(lex_le(sort_key(sorted[bi]), sort_key(sorted[at - 1])));
                lemma_lex_le_transitive(sort_key(sorted[bi]), sort_key(sorted[at - 1]), key, 0);
            }
        }
    }
}

/// Sorting gives a list in ascending order of title that holds the same
/// windows, each as often as before.
pub proof fn lemma_sorted_from(windows: Seq<WindowInfo>, n: int)
    requires
        0 <= n <= windows.len(),
    ensures
        sorted_by_title(sorted_from(windows, n)),
        sorted_from(windows, n).len() == n,
        sorted_from(windows, n).to_multiset() == windows.subrange(0, n).to_multiset(),
    decreases n,
{
    if n > 0 {
        lemma_sorted_from(windows, n - 1);
        let before = sorted_from(windows, n - 1);
        let window = windows[n - 1];
        lemma_insertion_point(before, sort_key(window));
        lemma_insert_keeps_sorted(before, window);
        let prefix = windows.subrange(0, n - 1);
        assert(windows.subrange(0, n) =~= prefix.push(window));
        vstd::seq_lib::to_multiset_build(prefix, window);
        lemma_insert_multiset(before, insertion_point(before, sort_key(window)), window);
    } else {
        assert(windows.subrange(0, 0) =~= Seq::<WindowInfo>::empty());
        assert(sorted_from(windows, n) =~= Seq::<WindowInfo>::empty());
    }
}

/// Whether `first` stands before `second` among the first `n` windows.
pub open spec fn came_before(
    windows: Seq<WindowInfo>,
    n: int,
    first: WindowInfo,
    second: WindowInfo,
) -> bool {
    exists|i: int, j: int| 0 <= i < j < n && windows[i] == first && windows[j] == second
}

/// The sort is stable: of two sorted entries whose keys are equal, the one
/// that stands first came in first.
pub proof fn lemma_sort_is_stable(windows: Seq<WindowInfo>, n: int)
    requires
        0 <= n <= windows.len(),
    ensures
        forall|a: int, b: int|
            0 <= a < b < n && lex_le(
                sort_key(#[trigger] sorted_from(windows, n)[b]),
                sort_key(#[trigger] sorted_from(windows, n)[a]),
            ) ==> came_before(windows, n, sorted_from(windows, n)[a], sorted_from(windows, n)[b]),
    decreases n,
{
    if n > 0 {
        lemma_sort_is_stable(windows, n - 1);
        lemma_sorted_from(windows, n - 1);
        lemma_sorted_from(windows, n);
        let before = sorted_from(windows, n - 1);
        let window = windows[n - 1];
        let at = insertion_point(before, sort_key(window));
        lemma_insertion_point(before, sort_key(window));
        let after = sorted_from(windows, n);
        assert forall|a: int, b: int|
            0 <= a < b < n && lex_le(
                sort_key(#[trigger] after[b]),
                sort_key(#[trigger] after[a]),
            ) implies came_before(windows, n, after[a], after[b]) by {
            let ba = if a < at {
                a
            } else {
                a - 1
            };
            let bb = if b < at {
                b
            } else {
                b - 1
            };
            if a != at && b != at {
                assert(after[a] == before[ba]);
                assert(after[b] == before[bb]);
                assert(came_before(windows, n - 1, before[ba], before[bb]));
                let (i, j) = choose|i: int, j: int|
                    0 <= i < j < n - 1 && windows[i] == before[ba] && windows[j] == before[bb];
                assert(0 <= i < j < n && windows[i] == after[a] && windows[j] == after[b]);
            } else if a == at {
                assert(after[b] == before[bb]);
                assert(!lex_le(sort_key(before[bb]), sort_key(window)));
            } else {
                assert(after[a] == before[ba]);
                let prefix = windows.subrange(0, n - 1);
                assert(before.contains(before[ba]));
                lemma_same_members(before, prefix, before[ba]);
                let i = choose|i: int| 0 <= i < prefix.len() && prefix[i] == before[ba];
                assert(0 <= i < n - 1 < n && windows[i] == after[a] && windows[n - 1] == after[b]);
            }
        }
    }
}

/// Sorts windows by title, ignoring case. Windows whose titles are equal up
/// to case stay in the order they came in.
pub fn sort_by_title(windows: Vec<WindowInfo>) -> (sorted: Vec<WindowInfo>)
    ensures
        sorted@ == sorted_from(windows@, windows@.len() as int),
{
    let mut sorted: Vec<WindowInfo> = Vec::new();
    let mut keys: Vec<Vec<char>> = Vec::new();
    for window in it: windows
        invariant
            it.seq() == windows@,
            keys@.len() == sorted@.len(),
            forall|k: int| 0 <= k < keys@.len() ==> (#[trigger] keys@[k])@ == sort_key(sorted@[k]),
            sorted@ == sorted_from(windows@, it.index() as int),
    {
        assert(window == windows@[it.index() as int]);
        let key = to_chars(to_lowercase(window.title.as_str()).as_str());
        let mut at: usize = keys.len();
        assert(sorted@.subrange(0, at as int) =~= sorted@);
        while at > 0 && !chars_le(&keys[at - 1], &key)
            invariant
                at <= keys@.len(),
                keys@.len() == sorted@.len(),
                forall|k: int|
                    0 <= k < keys@.len() ==> (#[trigger] keys@[k])@ == sort_key(sorted@[k]),
                insertion_point(sorted@, key@) == insertion_point(
                    sorted@.subrange(0, at as int),
                    key@,
                ),
            decreases at,
        {
            proof {
                let head = sorted@.subrange(0, at as int);
                assert(head.last() == sorted@[at - 1]);
                assert(head.drop_last() =~= sorted@.subrange(0, at - 1));
            }
            at -= 1;
        }
        proof {
            let head = sorted@.subrange(0, at as int);
            if at > 0 {
                assert(head.last() == sorted@[at - 1]);
            }
            assert(insertion_point(head, key@) == at);
        }
        keys.insert(at, key);
        sorted.insert(at, window);
    }
    sorted
}

/// Inserting an element adds it once to the multiset.
proof fn lemma_insert_multiset(s: Seq<WindowInfo>, at: int, w: WindowInfo)
    requires
        0 <= at <= s.len(),
    ensures
        s.insert(at, w).to_multiset() == s.to_multiset().insert(w),
{
    let head = s.subrange(0, at);
    let tail = s.subrange(at, s.len() as int);
    assert(s =~= head + tail);
    assert(s.insert(at, w) =~= head.push(w) + tail);
    vstd::seq_lib::lemma_multiset_commutative(head, tail);
    vstd::seq_lib::lemma_multiset_commutative(head.push(w), tail);
    vstd::seq_lib::to_multiset_build(head, w);
    assert(head.push(w).to_multiset().add(tail.to_multiset()) =~= head.to_multiset().add(
        tail.to_multiset(),
    ).insert(w));
}

/// Sequences with the same multiset have the same members.
proof fn lemma_same_members(a: Seq<WindowInfo>, b: Seq<WindowInfo>, x: WindowInfo)
    requires
        a.to_multiset() == b.to_multiset(),
        a.contains(x),
    ensures
        b.contains(x),
{
    a.to_multiset_ensures();
    b.to_multiset_ensures();
    assert(a.to_multiset().count(x) > 0);
    assert(b.to_multiset().count(x) > 0);
}

/// A rearrangement of entries with distinct processes has distinct
/// processes.
proof fn lemma_rearranged_distinct(chosen: Seq<WindowInfo>, sorted: Seq<WindowInfo>)
    requires
        distinct_pids(chosen),
        sorted.to_multiset() == chosen.to_multiset(),
    ensures
        distinct_pids(sorted),
{
    assert(chosen.no_duplicates()) by {
        assert forall|a: int, b: int| 0 <= a < chosen.len() && 0 <= b < chosen.len() && a
            != b implies chosen[a] != chosen[b] by {
            if a < b {
                assert(chosen[a].pid != chosen[b].pid);
            } else {
                assert(chosen[b].pid != chosen[a].pid);
            }
        }
    }
    chosen.lemma_multiset_has_no_duplicates();
    sorted.lemma_multiset_has_no_duplicates_conv();
    assert forall|a: int, b: int| 0 <= a < b < sorted.len() implies (#[trigger] sorted[a]).pid != (
    #[trigger] sorted[b]).pid by {
        assert(sorted.contains(sorted[a]));
        assert(sorted.contains(sorted[b]));
        lemma_same_members(sorted, chosen, sorted[a]);
        lemma_same_members(sorted, chosen, sorted[b]);
        let ca = choose|c: int| 0 <= c < chosen.len() && chosen[c] == sorted[a];
        let cb = choose|c: int| 0 <= c < chosen.len() && chosen[c] == sorted[b];
        assert(sorted[a] != sorted[b]);
        if ca < cb {
            assert(chosen[ca].pid != chosen[cb].pid);
        } else if cb < ca {
            assert(chosen[cb].pid != chosen[ca].pid);
        }
    }
}

/// A rearrangement of the chosen entries stands for the same processes.
proof fn lemma_rearranged_represents(
    windows: Seq<WindowInfo>,
    chosen: Seq<WindowInfo>,
    sorted: Seq<WindowInfo>,
)
    requires
        represents(windows, windows.len() as int, chosen),
        sorted.to_multiset() == chosen.to_multiset(),
    ensures
        represents(windows, windows.len() as int, sorted),
{
    let n = windows.len() as int;
    lemma_rearranged_distinct(chosen, sorted);
    assert forall|k: int| 0 <= k < sorted.len() implies stands_for(
        windows,
        n,
        #[trigger] sorted[k],
    ) by {
        assert(sorted.contains(sorted[k]));
        lemma_same_members(sorted, chosen, sorted[k]);
        let c = choose|c: int| 0 <= c < chosen.len() && chosen[c] == sorted[k];
        assert(stands_for(windows, n, chosen[c]));
    }
    assert forall|j: int| 0 <= j < n implies has_entry(sorted, (#[trigger] windows[j]).pid) by {
        assert(has_entry(chosen, windows[j].pid));
        let c = choose|c: int| 0 <= c < chosen.len() && (#[trigger] chosen[c]).pid
            == windows[j].pid;
        assert(chosen.contains(chosen[c]));
        lemma_same_members(chosen, sorted, chosen[c]);
        let k = choose|k: int| 0 <= k < sorted.len() && sorted[k] == chosen[c];
        assert(sorted[k].pid == windows[j].pid);
    }
}

/// Whether `listing` lists the processes of `windows`: one entry for each,
/// the one with the longest title, in ascending order of title.
pub open spec fn is_listing(windows: Seq<WindowInfo>, listing: Seq<WindowInfo>) -> bool {
    represents(windows, windows.len() as int, listing) && sorted_by_title(listing)
}

/// The listing holds one entry for each process of the windows found, the
/// window of that process with the longest title, and is in ascending order
/// of title.
pub proof fn lemma_listing(windows: Seq<WindowInfo>)
    ensures
        is_listing(windows, listing_of(windows)),
{
    let chosen = chosen_from(windows, windows.len() as int);
    lemma_chosen_represents(windows, windows.len() as int);
    lemma_sorted_from(chosen, chosen.len() as int);
    assert(chosen.subrange(0, chosen.len() as int) =~= chosen);
    lemma_rearranged_represents(windows, chosen, listing_of(windows));
}

/// Lists the processes that can be captured, from the windows found: one
/// entry for each process, sorted by title without regard to case.
pub fn list_capturable_windows(windows: Vec<WindowInfo>) -> (listing: Vec<WindowInfo>)
    ensures
        listing@ == listing_of(windows@),
{
    let chosen = dedup_by_pid(windows);
    sort_by_title(chosen)
}

/// Whether a window belongs to the executable `name`, whatever the case of
/// its ASCII letters.
pub open spec fn runs(window: WindowInfo, name: Seq<char>) -> bool {
    eq_ignoring_ascii_case(window.exe_name@, name)
}

/// The process of the first window in the list that belongs to `name`.
pub open spec fn first_match(windows: Seq<WindowInfo>, name: Seq<char>) -> Option<u32>
    decreases windows.len(),
{
    if windows.len() == 0 {
        None
    } else if runs(windows[0], name) {
        Some(windows[0].pid)
    } else {
        first_match(windows.drop_first(), name)
    }
}

/// A match is found exactly if some window belongs to `name`, and then it is
/// the first such window's process.
pub proof fn lemma_first_match(windows: Seq<WindowInfo>, name: Seq<char>)
    ensures
        first_match(windows, name) is None <==> forall|i: int|
            0 <= i < windows.len() ==> !runs(#[trigger] windows[i], name),
        first_match(windows, name) is Some ==> exists|i: int|
            0 <= i < windows.len() && runs(#[trigger] windows[i], name) && windows[i].pid
                == first_match(windows, name)->Some_0 && forall|k: int|
                0 <= k < i ==> !runs(#[trigger] windows[k], name),
    decreases windows.len(),
{
    if windows.len() > 0 && !runs(windows[0], name) {
        let rest = windows.drop_first();
        lemma_first_match(rest, name);
        assert forall|i: int| 1 <= i < windows.len() implies windows[i] == rest[i - 1] by {}
        if first_match(rest, name) is Some {
            let i = choose|i: int|
                0 <= i < rest.len() && runs(#[trigger] rest[i], name) && rest[i].pid == first_match(
                    rest,
                    name,
                )->Some_0 && forall|k: int| 0 <= k < i ==> !runs(#[trigger] rest[k], name);
            assert(windows[i + 1] == rest[i]);
            assert forall|k: int| 0 <= k < i + 1 implies !runs(#[trigger] windows[k], name) by {
                if k > 0 {
                    assert(windows[k] == rest[k - 1]);
                }
            }
        } else {
            assert forall|i: int| 0 <= i < windows.len() implies !runs(
                #[trigger] windows[i],
                name,
            ) by {
                if i > 0 {
                    assert(windows[i] == rest[i - 1]);
                }
            }
        }
    } else if windows.len() > 0 {
        assert(runs(windows[0], name));
    }
}

/// Finds the process of the first listed window that belongs to the
/// executable `name`.
pub fn find_target_pid(listing: &Vec<WindowInfo>, name: &str) -> (found: Option<u32>)
    ensures
        found == first_match(listing@, name@),
{
    let mut i: usize = 0;
    assert(listing@.subrange(0, listing@.len() as int) =~= listing@);
    while i < listing.len()
        invariant
            i <= listing@.len(),
            first_match(listing@, name@) == first_match(
                listing@.subrange(i as int, listing@.len() as int),
                name@,
            ),
        decreases listing@.len() - i,
    {
        let ghost rest = listing@.subrange(i as int, listing@.len() as int);
        assert(rest[0] == listing@[i as int]);
        assert(rest.drop_first() =~= listing@.subrange(i + 1, listing@.len() as int));
        if eq_ignore_ascii_case(listing[i].exe_name.as_str(), name) {
            return Some(listing[i].pid);
        }
        i += 1;
    }
    None
}

/// The name of the music player's executable.
pub open spec fn target_executable() -> Seq<char> {
    "Spotify.exe"@
}

/// The process that the search for the music player gives on the windows
/// found.
pub open spec fn target_of(windows: Seq<WindowInfo>) -> Option<u32> {
    first_match(listing_of(windows), target_executable())
}

/// Finds the music player among the windows found: the process of the first
/// listed window that belongs to `Spotify.exe`.
pub fn find_spotify_pid(windows: Vec<WindowInfo>) -> (found: Option<u32>)
    ensures
        found == target_of(windows@),
{
    let listing = list_capturable_windows(windows);
    find_target_pid(&listing, "Spotify.exe")
}

} // verus!
