use mensa::calendar::{day_heading, update_date, week_dates, DateUpdate};
use mensa::cli::ArgAction;

#[test]
fn date_option_sets_a_valid_date() {
    let today = (2026, 3, 18);
    assert_eq!(
        update_date(today, &ArgAction::SetDate("2026-05-27".to_owned())),
        DateUpdate::Date((2026, 5, 27))
    );
    assert_eq!(
        update_date(today, &ArgAction::SetDate("2024-02-29".to_owned())),
        DateUpdate::Date((2024, 2, 29))
    );
}

#[test]
fn date_option_refuses_what_is_no_date() {
    let today = (2026, 3, 18);
    for raw in ["2026-02-30", "27.05.2026", "", "2026-13-01"] {
        match update_date(today, &ArgAction::SetDate(raw.to_owned())) {
            DateUpdate::Invalid(message) => assert!(!message.is_empty(), "{raw}"),
            other => panic!("{raw}: {other:?}"),
        }
    }
}

#[test]
fn tomorrow_moves_one_day_across_month_and_year_ends() {
    assert_eq!(update_date((2026, 3, 18), &ArgAction::Tomorrow), DateUpdate::Date((2026, 3, 19)));
    assert_eq!(update_date((2026, 12, 31), &ArgAction::Tomorrow), DateUpdate::Date((2027, 1, 1)));
    assert_eq!(update_date((2024, 2, 28), &ArgAction::Tomorrow), DateUpdate::Date((2024, 2, 29)));
    assert_eq!(update_date((2026, 2, 30), &ArgAction::Tomorrow), DateUpdate::Overflow);
}

#[test]
fn other_options_keep_the_date() {
    assert_eq!(update_date((2026, 3, 18), &ArgAction::Continue), DateUpdate::Date((2026, 3, 18)));
    assert_eq!(update_date((2026, 3, 18), &ArgAction::Help), DateUpdate::Date((2026, 3, 18)));
}

#[test]
fn week_runs_monday_to_friday() {
    let expected = vec![(2026, 5, 25), (2026, 5, 26), (2026, 5, 27), (2026, 5, 28), (2026, 5, 29)];
    assert_eq!(week_dates((2026, 5, 27)), Some(expected.clone()));
    assert_eq!(week_dates((2026, 5, 25)), Some(expected.clone()));
    assert_eq!(week_dates((2026, 5, 31)), Some(expected));
    assert_eq!(
        week_dates((2026, 1, 1)),
        Some(vec![(2025, 12, 29), (2025, 12, 30), (2025, 12, 31), (2026, 1, 1), (2026, 1, 2)])
    );
    assert_eq!(week_dates((2026, 4, 31)), None);
}

#[test]
fn day_heading_names_the_weekday() {
    assert_eq!(day_heading((2026, 3, 18), "de").as_deref(), Some("Mittwoch 18.03."));
    assert_eq!(day_heading((2026, 3, 18), "en").as_deref(), Some("Wednesday 03/18"));
    assert_eq!(day_heading((2026, 5, 31), "de").as_deref(), Some("Sonntag 31.05."));
    assert_eq!(day_heading((2026, 0, 1), "de"), None);
}

#[test]
fn week_dates_follow_each_other_one_day_apart() {
    let days = week_dates((2024, 3, 1)).unwrap();
    assert_eq!(days, vec![(2024, 2, 26), (2024, 2, 27), (2024, 2, 28), (2024, 2, 29), (2024, 3, 1)]);
    for (k, d) in days.iter().enumerate() {
        let heading = day_heading(*d, "en").unwrap();
        let expected = ["Monday", "Tuesday", "Wednesday", "Thursday", "Friday"][k];
        assert!(heading.starts_with(expected), "{heading}");
    }
}
