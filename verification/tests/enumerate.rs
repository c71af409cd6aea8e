use jam_audio::enumerate::{
    dedup_by_pid, exe_name_from_path, find_spotify_pid, find_target_pid, is_capturable_window,
    list_capturable_windows, sort_by_title, WindowInfo,
};
use jam_audio::text::{chars_le, eq_ignore_ascii_case, str_eq, to_chars};

fn window(pid: u32, title: &str, exe: &str) -> WindowInfo {
    WindowInfo { pid, hwnd: pid as u64 * 10, title: title.to_string(), exe_name: exe.to_string() }
}

fn titles(windows: &[WindowInfo]) -> Vec<String> {
    windows.iter().map(|w| w.title.clone()).collect()
}

#[test]
fn shell_windows_and_unowned_windows_are_not_listed() {
    assert!(is_capturable_window(true, "Spotify Premium", 42));
    assert!(!is_capturable_window(false, "Spotify Premium", 42));
    assert!(!is_capturable_window(true, "", 42));
    assert!(!is_capturable_window(true, "Spotify Premium", 0));
    for title in ["Program Manager", "Windows Input Experience", "MSCTFIME UI", "Default IME"] {
        assert!(!is_capturable_window(true, title, 42));
    }
    assert!(is_capturable_window(true, "program manager", 42));
}

#[test]
fn the_executable_name_follows_the_last_backslash() {
    assert_eq!(exe_name_from_path("C:\\Users\\sam\\AppData\\Spotify.exe"), "Spotify.exe");
    assert_eq!(exe_name_from_path("Spotify.exe"), "Spotify.exe");
    assert_eq!(exe_name_from_path("C:\\dir\\"), "");
    assert_eq!(exe_name_from_path(""), "");
    assert_eq!(exe_name_from_path("\\\\server\\share\\ä.exe"), "ä.exe");
}

#[test]
fn one_entry_is_kept_for_each_process_with_the_longest_title() {
    let raw = vec![
        window(7, "Short", "a.exe"),
        window(9, "Other", "b.exe"),
        window(7, "Much longer title", "a.exe"),
        window(7, "Medium one", "a.exe"),
        window(9, "Equal", "b2.exe"),
    ];
    let kept = dedup_by_pid(raw);
    assert_eq!(kept.len(), 2);
    assert_eq!(kept[0].pid, 7);
    assert_eq!(kept[0].title, "Much longer title");
    assert_eq!(kept[1].pid, 9);
    assert_eq!(kept[1].title, "Other");
    assert_eq!(kept[1].exe_name, "b.exe");
}

#[test]
fn title_length_is_counted_in_bytes() {
    let raw = vec![window(1, "abcd", "x"), window(1, "äöü", "y")];
    let kept = dedup_by_pid(raw);
    assert_eq!(kept.len(), 1);
    assert_eq!(kept[0].title, "äöü");
}

#[test]
fn windows_are_sorted_by_title_without_regard_to_case() {
    let raw = vec![
        window(1, "b", ""),
        window(2, "C", ""),
        window(3, "a", ""),
        window(4, "B", ""),
        window(5, "Ä", ""),
        window(6, "", ""),
    ];
    let sorted = sort_by_title(raw);
    assert_eq!(titles(&sorted), vec!["", "a", "b", "B", "C", "Ä"]);
    assert_eq!(sorted[2].pid, 1);
    assert_eq!(sorted[3].pid, 4);
}

#[test]
fn lower_case_comes_from_the_whole_of_unicode() {
    let raw = vec![window(1, "ÖL", ""), window(2, "öde", ""), window(3, "a", "")];
    let sorted = sort_by_title(raw);
    assert_eq!(titles(&sorted), vec!["a", "öde", "ÖL"]);
    let raw = vec![window(1, "a", ""), window(2, "B", "")];
    assert_eq!(titles(&sort_by_title(raw)), vec!["a", "B"]);
}

#[test]
fn the_listing_is_deduplicated_and_sorted() {
    let raw = vec![
        window(30, "zebra", "z.exe"),
        window(10, "Spotify", "Spotify.exe"),
        window(20, "apple", "a.exe"),
        window(10, "Spotify Premium", "Spotify.exe"),
        window(20, "Ap", "a.exe"),
    ];
    let listing = list_capturable_windows(raw);
    assert_eq!(titles(&listing), vec!["apple", "Spotify Premium", "zebra"]);
    assert_eq!(listing.iter().map(|w| w.pid).collect::<Vec<u32>>(), vec![20, 10, 30]);
    assert!(list_capturable_windows(Vec::new()).is_empty());
}

#[test]
fn the_target_is_the_first_listed_window_of_the_executable() {
    let listing = vec![
        window(1, "a", "notepad.exe"),
        window(2, "b", "SPOTIFY.EXE"),
        window(3, "c", "Spotify.exe"),
    ];
    assert_eq!(find_target_pid(&listing, "Spotify.exe"), Some(2));
    assert_eq!(find_target_pid(&listing, "spotify.exe"), Some(2));
    assert_eq!(find_target_pid(&listing, "Notepad.EXE"), Some(1));
    assert_eq!(find_target_pid(&listing, "Spotify"), None);
    assert_eq!(find_target_pid(&Vec::new(), "Spotify.exe"), None);
}

#[test]
fn the_music_player_is_found_in_the_sorted_listing() {
    let raw = vec![
        window(5, "zz player", "spotify.exe"),
        window(6, "Aa player", "Spotify.exe"),
        window(7, "editor", "code.exe"),
    ];
    assert_eq!(find_spotify_pid(raw), Some(6));
    assert_eq!(find_spotify_pid(vec![window(7, "editor", "code.exe")]), None);
    assert_eq!(find_spotify_pid(Vec::new()), None);
}

#[test]
fn text_helpers_compare_by_characters() {
    assert_eq!(to_chars("aä€"), vec!['a', 'ä', '€']);
    assert!(str_eq("abc", "abc"));
    assert!(!str_eq("abc", "abd"));
    assert!(!str_eq("abc", "ab"));
    assert!(eq_ignore_ascii_case("Spotify.EXE", "spotify.exe"));
    assert!(!eq_ignore_ascii_case("Ä", "ä"));
    assert!(!eq_ignore_ascii_case("abc", "abcd"));
    assert!(!eq_ignore_ascii_case("[", "{"));
    assert!(!eq_ignore_ascii_case("@", "`"));
    assert!(chars_le(&to_chars("abc"), &to_chars("abd")));
    assert!(chars_le(&to_chars("ab"), &to_chars("abc")));
    assert!(chars_le(&to_chars("abc"), &to_chars("abc")));
    assert!(!chars_le(&to_chars("abc"), &to_chars("ab")));
    assert!(!chars_le(&to_chars("b"), &to_chars("abc")));
    assert!(chars_le(&to_chars(""), &to_chars("")));
    for (a, b) in [("a", "B"), ("z", "ä"), ("ä", "€"), ("", "x"), ("ab", "ab")] {
        assert_eq!(chars_le(&to_chars(a), &to_chars(b)), a <= b);
        assert_eq!(chars_le(&to_chars(b), &to_chars(a)), b <= a);
    }
}
