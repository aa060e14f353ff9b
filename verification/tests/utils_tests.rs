use skyscanner::domain::Date;
use skyscanner::utils::check_date_is_weekend;
use skyscanner::utils::create_dates;
use skyscanner::utils::parse_date;
use skyscanner::utils::parse_input_days;

#[test]
fn it_works_when_checking_the_date_is_weekend() {
    let naive_dates = vec![
        parse_date(2023, 3, 6),  // Mon
        parse_date(2023, 3, 7),  // Tue
        parse_date(2023, 3, 8),  // Wed
        parse_date(2023, 3, 9),  // Thu
        parse_date(2023, 3, 10), // Fri
        parse_date(2023, 3, 11), // Sat
        parse_date(2023, 3, 12), // Sun
    ];

    let expected_values = vec![false, false, false, false, false, true, true];
    for (&naive_date, &expected_value) in naive_dates.iter().zip(expected_values.iter()) {
        assert_eq!(check_date_is_weekend(naive_date), expected_value);
    }
}

#[test]
fn it_works_when_parsing_input_days() {
    let s = "3,4:5,6";
    let result = parse_input_days(s);
    assert!(result.is_ok());
    if let Ok(res) = result {
        assert_eq!(res.len(), 2);
        assert_eq!(res, vec![vec![3, 4], vec![5, 6]]);
    }
}

#[test]
fn it_works_when_creating_date() {
    let year = 2023;
    let months = vec![4, 5];
    let days = vec![vec![1, 2], vec![3, 4]];
    let durations = vec![3, 4];

    let expected_values = vec![
        (parse_date(2023, 4, 1), parse_date(2023, 4, 4)),
        (parse_date(2023, 4, 1), parse_date(2023, 4, 5)),
        (parse_date(2023, 4, 2), parse_date(2023, 4, 5)),
        (parse_date(2023, 4, 2), parse_date(2023, 4, 6)),
        (parse_date(2023, 5, 3), parse_date(2023, 5, 6)),
        (parse_date(2023, 5, 3), parse_date(2023, 5, 7)),
        (parse_date(2023, 5, 4), parse_date(2023, 5, 7)),
        (parse_date(2023, 5, 4), parse_date(2023, 5, 8)),
    ];

    let res = create_dates(year, months, &days, durations);
    assert_eq!(res.len(), expected_values.len());
    assert_eq!(res, expected_values);
}

#[test]
fn parsing_input_days_rejects_entries_that_are_not_numbers() {
    let err = parse_input_days("3,x:5").unwrap_err();
    assert_eq!(err, "Invalid days: each entry must be a number");
}

#[test]
fn parsing_input_days_trims_outer_and_group_whitespace() {
    let res = parse_input_days(" 3,4 : 5,6 ").unwrap();
    assert_eq!(res, vec![vec![3, 4], vec![5, 6]]);
}

#[test]
fn parsing_input_days_rejects_numbers_that_do_not_fit() {
    assert!(parse_input_days("65535,7").is_ok());
    assert!(parse_input_days("65535,65536:7").is_err());
}

#[test]
fn parsing_input_days_rejects_empty_entries() {
    assert!(parse_input_days("3,:5").is_err());
    assert!(parse_input_days("").is_err());
}

#[test]
fn creating_dates_drops_invalid_calendar_days() {
    let res = create_dates(2023, vec![2], &[vec![30, 28]], vec![1]);
    assert_eq!(res, vec![(Date::new(2023, 2, 28), Date::new(2023, 3, 1))]);
}

#[test]
fn creating_dates_crosses_month_and_year_ends() {
    let res = create_dates(2023, vec![12], &[vec![31]], vec![1, 366]);
    assert_eq!(
        res,
        vec![
            (Date::new(2023, 12, 31), Date::new(2024, 1, 1)),
            (Date::new(2023, 12, 31), Date::new(2024, 12, 31)),
        ]
    );
}

#[test]
fn leap_years_are_respected() {
    let res = create_dates(2024, vec![2], &[vec![29]], vec![1]);
    assert_eq!(res, vec![(Date::new(2024, 2, 29), Date::new(2024, 3, 1))]);
}
