use workbench::db::Note;
use workbench::notes::{
    carry_over, day_file, day_of_file, days_in, looks_like_a_day, neighbours_in, open_day, previous_in,
    store_for, tally, to_adopt, Opening, Store,
};

fn note(day: &str, body: &str) -> Note {
    Note { day: day.to_string(), body: body.to_string(), updated_at: 0 }
}

/// Today by the local clock, as the application shell reads it.
fn today() -> String {
    chrono::Local::now().format("%Y-%m-%d").to_string()
}

fn fresh(o: Opening) -> String {
    match o {
        Opening::Fresh(b) => b,
        Opening::Existing(_) => panic!("expected a fresh day"),
    }
}

#[test]
fn carries_only_unfinished_work() {
    let yesterday = "\
- [x] ship the release
- [ ] review acme/api#412
  - [ ] and its follow-up
- [X] done, capitalised
notes that are not todos";

    let carried = carry_over(yesterday);
    assert!(carried.contains("review acme/api#412"));
    assert!(carried.contains("  - [ ] and its follow-up"), "indentation kept");
    assert!(!carried.contains("ship the release"));
    assert!(!carried.contains("done, capitalised"));
    assert!(!carried.contains("notes that are not todos"));
}

#[test]
fn a_finished_day_carries_nothing() {
    assert_eq!(carry_over("- [x] all done\njust notes"), "");
}

#[test]
fn tally_counts_both_states() {
    assert_eq!(tally("- [x] a\n- [ ] b\n- [ ] c\ntext"), (1, 2));
}

/// The question this answers: when today ends, is today still there?
#[test]
fn a_past_day_survives_the_rollover_untouched() {
    let earlier = "- [x] shipped the release\n- [ ] chase the flaky test";
    let stored = note("2000-01-01", earlier);
    let days = vec!["2000-01-01".to_string()];

    let day = today();
    let previous = previous_in(&days, &day);
    assert_eq!(previous.as_deref(), Some("2000-01-01"));
    let body = fresh(open_day(None, &day, &day, Some(note("2000-01-01", earlier))));
    assert!(body.contains("chase the flaky test"), "open work follows you");
    assert!(!body.contains("shipped the release"), "finished work stays put");

    match open_day(Some(stored), "2000-01-01", &day, None) {
        Opening::Existing(kept) => assert_eq!(kept.body, earlier),
        Opening::Fresh(_) => panic!("a written day is shown as it is"),
    }

    let (previous_day, _) = neighbours_in(&days, &day);
    assert_eq!(previous_day.as_deref(), Some("2000-01-01"));
}

#[test]
fn an_old_day_reopened_does_not_inherit() {
    let previous = note("2000-01-01", "- [ ] ancient business");
    assert_eq!(fresh(open_day(None, "2000-01-02", &today(), Some(previous))), "");
}

#[test]
fn unrelated_files_in_the_folder_are_ignored() {
    let names = vec![
        "2000-01-01.md".to_string(),
        "README.md".to_string(),
        "shopping-list.md".to_string(),
        "2000-01-02.txt".to_string(),
    ];
    assert_eq!(days_in(&names), vec!["2000-01-01".to_string()]);
}

#[test]
fn adopting_a_folder_copies_notes_without_clobbering_what_is_there() {
    let stored = vec![note("2000-01-01", "from the database"), note("2000-01-02", "also from the database")];
    let names = vec!["2000-01-02.md".to_string()];
    let copied = to_adopt(stored, &names);
    assert_eq!(copied.len(), 1, "only the day the folder did not have");
    assert_eq!(copied[0].day, "2000-01-01");
    assert_eq!(copied[0].body, "from the database");
    assert!(copied.iter().all(|n| n.day != "2000-01-02"), "the folder wins over the database");
}

#[test]
fn adopting_never_overwrites_a_file_that_is_there_whatever_its_name() {
    let stored = vec![note("inbox", "from the database"), note("2000-01-01", "a")];
    let names = vec!["inbox.md".to_string(), "README.md".to_string()];
    let copied = to_adopt(stored, &names);
    let days: Vec<&str> = copied.iter().map(|n| n.day.as_str()).collect();
    assert_eq!(days, vec!["2000-01-01"]);
}

#[test]
fn tally_adds_up_over_joined_bodies() {
    let a = "- [x] a\n- [ ] b\r";
    let b = "text\n* [X] c\n  - [ ] d\n";
    let (da, oa) = tally(a);
    let (db, ob) = tally(b);
    assert_eq!(tally(&format!("{a}\n{b}")), (da + db, oa + ob));
    assert_eq!(tally(&format!("{a}\n{b}")), (2, 2));
}

#[test]
fn carrying_over_twice_is_carrying_over_once() {
    let body = "- [x] done\n- [ ] open one\r\n  * [ ] open two\nnotes";
    let once = carry_over(body);
    assert_eq!(carry_over(&once), once);
    assert_eq!(carry_over(""), "");
    assert_eq!(carry_over(&carry_over("")), "");
}

#[test]
fn a_carried_line_ending_in_a_carriage_return_loses_it_on_the_second_pass() {
    let once = carry_over("- [ ] a\r");
    assert_eq!(once, "Carried over\n- [ ] a\r\n\n");
    assert_eq!(carry_over(&once), "Carried over\n- [ ] a\n\n");
}

#[test]
fn adopting_an_empty_folder_copies_everything_in_order() {
    let stored = vec![note("2000-01-01", "a"), note("2000-01-02", "b")];
    let copied = to_adopt(stored, &Vec::new());
    let days: Vec<&str> = copied.iter().map(|n| n.day.as_str()).collect();
    assert_eq!(days, vec!["2000-01-01", "2000-01-02"]);
}

#[test]
fn days_come_out_oldest_first() {
    let names = vec![
        "2000-03-01.md".to_string(),
        "1999-12-31.md".to_string(),
        "notes.md".to_string(),
        "2000-01-15.md".to_string(),
    ];
    assert_eq!(
        days_in(&names),
        vec!["1999-12-31".to_string(), "2000-01-15".to_string(), "2000-03-01".to_string()]
    );
}

#[test]
fn neighbours_are_the_nearest_written_days() {
    let days = vec!["2000-01-05".to_string(), "2000-01-01".to_string(), "2000-01-09".to_string()];
    let (p, n) = neighbours_in(&days, "2000-01-06");
    assert_eq!(p.as_deref(), Some("2000-01-05"));
    assert_eq!(n.as_deref(), Some("2000-01-09"));
    let (p, n) = neighbours_in(&days, "2000-01-09");
    assert_eq!(p.as_deref(), Some("2000-01-05"));
    assert_eq!(n, None);
    assert_eq!(previous_in(&days, "2000-01-01"), None);
}

#[test]
fn a_monday_picks_up_fridays_loose_ends() {
    let days = vec!["2024-05-03".to_string()];
    assert_eq!(previous_in(&days, "2024-05-06").as_deref(), Some("2024-05-03"));
}

#[test]
fn carried_work_is_headed_and_spaced() {
    assert_eq!(
        carry_over("- [ ] one\ntext\n* [ ] two\r\n"),
        "Carried over\n- [ ] one\n* [ ] two\n\n"
    );
}

#[test]
fn day_names() {
    assert!(looks_like_a_day("2000-01-01"));
    assert!(!looks_like_a_day("2000/01/01"));
    assert!(!looks_like_a_day("2000-01-1"));
    assert_eq!(day_file("2000-01-01"), "2000-01-01.md");
    assert_eq!(day_of_file("2000-01-01.md").as_deref(), Some("2000-01-01"));
    assert_eq!(day_of_file("2000-01-01.txt"), None);
}

#[test]
fn a_blank_folder_setting_means_the_database() {
    assert!(matches!(store_for(None), Store::Db));
    assert!(matches!(store_for(Some("  \t".to_string())), Store::Db));
    match store_for(Some("/home/me/notes".to_string())) {
        Store::Folder(d) => assert_eq!(d, "/home/me/notes"),
        Store::Db => panic!("a folder was set"),
    }
}

#[test]
fn what_is_carried_is_all_open_and_nothing_done() {
    let body = "- [x] done\n- [ ] one\n  * [ ] two\r\nplain\n- [X] also done\n- [ ] three\r";
    let (_, open) = tally(body);
    assert_eq!(open, 3);
    assert_eq!(tally(&carry_over(body)), (0, 3));
}

#[test]
fn an_empty_previous_day_carries_nothing() {
    assert_eq!(carry_over(""), "");
    assert_eq!(tally(""), (0, 0));
}

#[test]
fn a_carriage_return_survives_only_where_no_line_break_follows() {
    assert_eq!(carry_over("- [ ] x\r"), "Carried over\n- [ ] x\r\n\n");
    assert_eq!(carry_over("- [ ] x\r\n"), "Carried over\n- [ ] x\n\n");
}
