use diary_cli::since::{get_days_since_2020, since_2023, SinceError};

#[test]
fn days_since_2020_counts_days() {
    assert_eq!(get_days_since_2020(2020, 1, 1), Some(0));
    assert_eq!(get_days_since_2020(2020, 1, 2), Some(1));
    assert_eq!(get_days_since_2020(2020, 3, 1), Some(60));
    assert_eq!(get_days_since_2020(2021, 1, 1), Some(366));
    assert_eq!(get_days_since_2020(2023, 8, 21), Some(1328));
    assert_eq!(get_days_since_2020(2019, 12, 31), Some(-1));
    assert_eq!(get_days_since_2020(2000, 1, 1), Some(-7305));
    assert_eq!(get_days_since_2020(0, 1, 1), Some(-737790));
}

#[test]
fn days_since_2020_of_no_day() {
    assert_eq!(get_days_since_2020(2023, 2, 29), None);
    assert_eq!(get_days_since_2020(2024, 2, 29), Some(1520));
    assert_eq!(get_days_since_2020(1900, 2, 29), None);
    assert_eq!(get_days_since_2020(2000, 2, 29), Some(-7246));
    assert_eq!(get_days_since_2020(2023, 4, 31), None);
    assert_eq!(get_days_since_2020(2023, 0, 1), None);
    assert_eq!(get_days_since_2020(2023, 13, 1), None);
    assert_eq!(get_days_since_2020(2023, 1, 0), None);
    assert_eq!(get_days_since_2020(2023, 1, 32), None);
}

#[test]
fn since_takes_year_month_day() {
    assert_eq!(since_2023(Some(vec![2021, 1, 1])), Ok(366));
    assert_eq!(since_2023(Some(vec![2021, 1])), Err(SinceError::InvalidDate));
    assert_eq!(since_2023(Some(vec![2021, 2, 30])), Err(SinceError::InvalidDate));
    assert!(since_2023(None).unwrap() > 2000);
}
