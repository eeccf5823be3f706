use codex_memory::notepad::{
    append_manual, append_working, append_working_at, build_notepad_content, contended_lock, lock_dir,
    lock_timed_out, lock_timeout_message, notepad_path, notepad_stats, owner_metadata, owner_pid,
    parse_sections, prune_cutoff, prune_days, prune_working, prune_working_at, read_notepad, temp_file_name,
    write_priority, LockAction, NotepadSection,
};

#[test]
fn parse_sections_empty() {
    let (p, w, m) = parse_sections("");
    assert!(p.is_empty());
    assert!(w.is_empty());
    assert!(m.is_empty());
}

#[test]
fn parse_sections_all_present() {
    let raw = "## PRIORITY\nurgent stuff\n\n## WORKING MEMORY\n[2026-01-01T00:00:00Z] note1\n\n## MANUAL\npermanent note";
    let (p, w, m) = parse_sections(raw);
    assert_eq!(p, "urgent stuff");
    assert!(w.contains("note1"));
    assert!(m.contains("permanent note"));
}

#[test]
fn write_and_read_priority() {
    let text = write_priority(None, "test priority");
    let content = read_notepad(Some(&text), Some(NotepadSection::Priority)).unwrap();
    assert_eq!(content, "test priority");
}

#[test]
fn append_working_entries() {
    let first = append_working(None, "2026-01-01T00:00:00+00:00", "first entry");
    let second = append_working(Some(&first), "2026-01-01T00:01:00+00:00", "second entry");
    let content = read_notepad(Some(&second), Some(NotepadSection::Working)).unwrap();
    assert!(content.contains("first entry"));
    assert!(content.contains("second entry"));
}

#[test]
fn prune_old_working_entries() {
    let content = "## PRIORITY\n\n## WORKING MEMORY\n[2020-01-01T00:00:00Z] old entry\n[2020-06-01T00:00:00Z] another old\n\n## MANUAL\n";
    let now = (1767225600i64, 0u32);
    let (removed, _) = prune_working(Some(content), now);
    assert!(removed > 0);
}

#[test]
fn notepad_full_lifecycle() {
    assert!(read_notepad(None, None).is_none());

    let text = write_priority(None, "Fix login bug first");
    let priority = read_notepad(Some(&text), Some(NotepadSection::Priority)).unwrap();
    assert_eq!(priority, "Fix login bug first");

    let text = append_working(Some(&text), "2026-03-01T10:00:00+00:00", "Started refactoring auth module");
    let text = append_working(Some(&text), "2026-03-01T10:05:00+00:00", "Found circular dependency in UserService");
    let working = read_notepad(Some(&text), Some(NotepadSection::Working)).unwrap();
    assert!(working.contains("Started refactoring auth module"));
    assert!(working.contains("Found circular dependency in UserService"));

    let text = append_manual(Some(&text), "Always use bcrypt for passwords");
    let manual = read_notepad(Some(&text), Some(NotepadSection::Manual)).unwrap();
    assert!(manual.contains("Always use bcrypt for passwords"));

    let all = read_notepad(Some(&text), None).unwrap();
    assert!(all.contains("## PRIORITY"));
    assert!(all.contains("## WORKING MEMORY"));
    assert!(all.contains("## MANUAL"));

    // A cutoff of "now" (zero days) prunes every entry written before it.
    let now = (1772362800i64, 0u32);
    let (removed, new_text) = prune_working(Some(&text), now);
    assert_eq!(removed, 2);
    let text = new_text.unwrap();

    let working_after = read_notepad(Some(&text), Some(NotepadSection::Working));
    assert!(working_after.is_none() || working_after.unwrap().trim().is_empty());
    assert!(read_notepad(Some(&text), Some(NotepadSection::Priority)).is_some());
}

#[test]
fn notepad_priority_truncation() {
    let long_content = "x".repeat(600);
    let text = write_priority(None, &long_content);
    let priority = read_notepad(Some(&text), Some(NotepadSection::Priority)).unwrap();
    assert!(
        priority.len() <= 500,
        "Priority should be truncated to 500 chars, got {}",
        priority.len()
    );
}

#[test]
fn notepad_priority_replaces_not_appends() {
    let text = write_priority(None, "First priority");
    let text = write_priority(Some(&text), "Second priority");
    let priority = read_notepad(Some(&text), Some(NotepadSection::Priority)).unwrap();
    assert_eq!(priority, "Second priority");
}

#[test]
fn build_content_layout() {
    assert_eq!(
        build_notepad_content("p", "", "m"),
        "## PRIORITY\n\np\n\n## WORKING MEMORY\n\n## MANUAL\n\nm\n"
    );
    assert_eq!(
        build_notepad_content("", "", ""),
        "## PRIORITY\n\n## WORKING MEMORY\n\n## MANUAL\n"
    );
}

#[test]
fn sections_round_trip_through_the_file() {
    let text = build_notepad_content("urgent", "[t] a\n[t] b", "keep me");
    let (p, w, m) = parse_sections(&text);
    assert_eq!(p, "urgent");
    assert_eq!(w, "[t] a\n[t] b");
    assert_eq!(m, "keep me");
}

#[test]
fn priority_limit_counts_characters() {
    // 300 two-byte characters are within the 500-character limit.
    let content = "é".repeat(300);
    let text = write_priority(None, &content);
    let priority = read_notepad(Some(&text), Some(NotepadSection::Priority)).unwrap();
    assert_eq!(priority, content);
    let text = write_priority(None, &"é".repeat(501));
    let priority = read_notepad(Some(&text), Some(NotepadSection::Priority)).unwrap();
    assert_eq!(priority, "é".repeat(500));
}

#[test]
fn append_working_formats_entry() {
    let text = append_working(None, "2026-01-01T00:00:00+00:00", "hello");
    assert_eq!(
        text,
        "## PRIORITY\n\n## WORKING MEMORY\n\n[2026-01-01T00:00:00+00:00] hello\n\n## MANUAL\n"
    );
}

#[test]
fn prune_keeps_recent_and_unstamped_entries() {
    let content = "## PRIORITY\nP\n\n## WORKING MEMORY\n[2020-01-01T00:00:00Z] old\nfree text\n[2030-01-01T00:00:00Z] future\n\n## MANUAL\nM\n";
    let cutoff = (1735689600i64, 0u32);
    let (removed, text) = prune_working(Some(content), cutoff);
    assert_eq!(removed, 1);
    let text = text.unwrap();
    assert_eq!(
        read_notepad(Some(&text), Some(NotepadSection::Working)).unwrap(),
        "free text\n[2030-01-01T00:00:00Z] future"
    );
    assert_eq!(read_notepad(Some(&text), Some(NotepadSection::Priority)).unwrap(), "P");
    assert_eq!(read_notepad(Some(&text), Some(NotepadSection::Manual)).unwrap(), "M");
}

#[test]
fn prune_nothing_leaves_file_alone() {
    let content = "## PRIORITY\n\n## WORKING MEMORY\n[2030-01-01T00:00:00Z] future\n\n## MANUAL\n";
    let cutoff = (1735689600i64, 0u32);
    assert_eq!(prune_working(Some(content), cutoff), (0, None));
    assert_eq!(prune_working(None, cutoff), (0, None));
}

#[test]
fn lines_without_a_readable_stamp_are_kept() {
    let content = "## WORKING MEMORY\né2020-01-01T00:00:00Z] x\n] b\n[2020-01-01T00:00:00Z] old\n";
    let cutoff = (1735689600i64, 0u32);
    let (removed, text) = prune_working(Some(content), cutoff);
    assert_eq!(removed, 1);
    assert_eq!(
        read_notepad(Some(&text.unwrap()), Some(NotepadSection::Working)).unwrap(),
        "é2020-01-01T00:00:00Z] x\n] b"
    );
    let s = notepad_stats(Some(content), 1);
    assert_eq!(s.working_entries, 1);
}

#[test]
fn stats_of_a_notepad() {
    let content = "## PRIORITY\nabc\n\n## WORKING MEMORY\n[2020-01-01T00:00:00Z] a\nfree\n[2021-01-01T00:00:00Z] b\n\n## MANUAL\nxy\n";
    let s = notepad_stats(Some(content), 99);
    assert_eq!(s.file_size_bytes, 99);
    assert_eq!(s.priority_chars, 3);
    assert_eq!(s.manual_chars, 2);
    assert_eq!(s.working_entries, 2);
    assert_eq!(s.oldest_working.as_deref(), Some("2020-01-01T00:00:00Z"));
    assert_eq!(s.newest_working.as_deref(), Some("2021-01-01T00:00:00Z"));
    let none = notepad_stats(None, 5);
    assert_eq!(none.file_size_bytes, 0);
    assert_eq!(none.working_entries, 0);
}

#[test]
fn read_missing_section_is_none() {
    let text = write_priority(None, "only priority");
    assert!(read_notepad(Some(&text), Some(NotepadSection::Manual)).is_none());
    assert!(read_notepad(None, Some(NotepadSection::Priority)).is_none());
}

#[test]
fn paths_under_root() {
    assert_eq!(notepad_path("/m"), "/m/notepad.md");
    assert_eq!(lock_dir("/m/"), "/m/.notepad.lock");
}

#[test]
fn temp_file_names() {
    assert_eq!(temp_file_name(Some("notepad.md"), 42), ".notepad.md.tmp.42");
    assert_eq!(temp_file_name(None, 7), ".notepad.md.tmp.7");
}

#[test]
fn lock_owner_record_round_trip() {
    let meta = owner_metadata(1234, 17);
    assert_eq!(meta, "{\"pid\":1234,\"ts\":17}");
    assert_eq!(owner_pid(&meta), Some(1234));
    assert_eq!(owner_pid("{\"pid\":12}"), None);
    assert_eq!(owner_pid("{\"ts\":1}"), None);
    assert_eq!(owner_pid("{\"pid\":x1,\"ts\":1}"), None);
    assert_eq!(owner_pid("{\"pid\":+5,\"ts\":1}"), Some(5));
}

#[test]
fn lock_decisions() {
    assert_eq!(contended_lock(Some(9), false), LockAction::Reap);
    assert_eq!(contended_lock(Some(9), true), LockAction::Wait);
    assert_eq!(contended_lock(None, false), LockAction::Wait);
    assert!(!lock_timed_out(4999));
    assert!(lock_timed_out(5000));
    assert_eq!(lock_timeout_message(), "failed to acquire notepad lock within 5000ms");
}

#[test]
fn prune_reads_offsets_and_skips_bad_stamps() {
    // 01:00 at +02:00 is 23:00 UTC the day before the cutoff; 03:00 at +02:00 is after it.
    let content = "## WORKING MEMORY\n[2025-01-01T01:00:00+02:00] before\n[2025-01-01T03:00:00+02:00] after\n[not a time] kept\n";
    let cutoff = (1735689600i64, 0u32);
    let (removed, text) = prune_working(Some(content), cutoff);
    assert_eq!(removed, 1);
    assert_eq!(
        read_notepad(Some(&text.unwrap()), Some(NotepadSection::Working)).unwrap(),
        "[2025-01-01T03:00:00+02:00] after\n[not a time] kept"
    );
}

#[test]
fn prune_cutoff_counts_back_whole_days() {
    assert_eq!(prune_days(None), 7);
    assert_eq!(prune_days(Some(2)), 2);
    assert_eq!(prune_cutoff((1_000_000, 5), Some(1)), Some((1_000_000 - 86_400, 5)));
    assert_eq!(prune_cutoff((1_000_000, 0), None), Some((1_000_000 - 7 * 86_400, 0)));
    assert_eq!(prune_cutoff((1_000_000, 0), Some(0)), Some((1_000_000, 0)));
    // Ages beyond what chrono represents give no cutoff.
    assert_eq!(prune_cutoff((1_000_000, 0), Some(u64::MAX)), None);
    assert_eq!(prune_cutoff((1_000_000, 0), Some(1u64 << 62)), None);
}

#[test]
fn append_working_stamps_the_instant() {
    let text = append_working_at(None, (1767225600, 0), "hello").unwrap();
    assert_eq!(
        text,
        "## PRIORITY\n\n## WORKING MEMORY\n\n[2026-01-01T00:00:00+00:00] hello\n\n## MANUAL\n"
    );
    let text = append_working_at(None, (1767225600, 500_000_000), "x").unwrap();
    assert!(text.contains("[2026-01-01T00:00:00.500+00:00] x"));
    assert_eq!(append_working_at(None, (i64::MAX, 0), "x"), None);
}

#[test]
fn prune_with_an_age_beyond_any_date_removes_nothing() {
    let content = "## WORKING MEMORY\n[2020-01-01T00:00:00Z] old\n";
    assert_eq!(prune_working_at(Some(content), (1767225600, 0), Some(u64::MAX)), (0, None));
    assert_eq!(prune_working_at(Some(content), (1767225600, 0), Some(100_000_000)), (0, None));
    let (removed, _) = prune_working_at(Some(content), (1767225600, 0), Some(7));
    assert_eq!(removed, 1);
    let (removed, _) = prune_working_at(Some(content), (1767225600, 0), None);
    assert_eq!(removed, 1);
}

#[test]
fn stats_report_earliest_and_latest_instants() {
    let content = "## PRIORITY\n\n## WORKING MEMORY\n[2026-01-02T00:00:00Z] b\n[2026-01-01T00:00:00Z] a\n[2026-01-01T02:00:00+03:00] c\n\n## MANUAL\n";
    let s = notepad_stats(Some(content), 0);
    assert_eq!(s.working_entries, 3);
    // 02:00 at +03:00 is 23:00 UTC on 2025-12-31, the earliest.
    assert_eq!(s.oldest_working.as_deref(), Some("2026-01-01T02:00:00+03:00"));
    assert_eq!(s.newest_working.as_deref(), Some("2026-01-02T00:00:00Z"));
}
