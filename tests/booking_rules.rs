use booking::book::ReservationBook;
use booking::calendar::{parse_date, Date};
use booking::choice::{validate_item_choice, ChoiceError};
use booking::request::{validate_request, BookingError};
use booking::text::decimal_text;

fn date(y: i32, m: u32, d: u32) -> Date {
    Date { year: y, month: m, day: d }
}

#[test]
fn overlap_is_symmetric() {
    let a = (date(2024, 1, 1), date(2024, 1, 5));
    let b = (date(2024, 1, 4), date(2024, 1, 9));
    let c = (date(2024, 1, 6), date(2024, 1, 9));

    let mut first = ReservationBook::new();
    first.admit_interval("Car", a.0, a.1, 5).unwrap();
    let mut second = ReservationBook::new();
    second.admit_interval("Car", b.0, b.1, 6).unwrap();
    assert_eq!(first.is_period_reserved(b.0, b.1, "Car"), second.is_period_reserved(a.0, a.1, "Car"));
    assert!(first.is_period_reserved(b.0, b.1, "Car"));

    let mut third = ReservationBook::new();
    third.admit_interval("Car", c.0, c.1, 4).unwrap();
    assert_eq!(first.is_period_reserved(c.0, c.1, "Car"), third.is_period_reserved(a.0, a.1, "Car"));
    assert!(!first.is_period_reserved(c.0, c.1, "Car"));
}

#[test]
fn shared_boundary_day_conflicts() {
    let mut book = ReservationBook::new();
    book.make_reservation("2024-01-01", "5", "Car").unwrap();
    let r = book.make_reservation("2024-01-05", "6", "Car");
    assert_eq!(r.unwrap_err(), BookingError::PeriodAlreadyReserved("Car".to_string()));
    assert_eq!(book.len(), 1);
}

#[test]
fn disjoint_periods_are_admitted() {
    let mut book = ReservationBook::new();
    let first = book.make_reservation("2024-01-01", "5", "Car").unwrap();
    assert_eq!(first.end_date, date(2024, 1, 5));
    let second = book.make_reservation("2024-01-06", "3", "Car").unwrap();
    assert_eq!(second.start_date, date(2024, 1, 6));
    assert_eq!(second.end_date, date(2024, 1, 8));
    assert_eq!(second.duration, 3);
    assert_eq!(book.len(), 2);
}

#[test]
fn conflict_leaves_book_unchanged() {
    let mut book = ReservationBook::new();
    book.make_reservation("2024-01-01", "5", "Car").unwrap();
    book.make_reservation("2024-01-06", "3", "Car").unwrap();
    let before = book.list_reservations();
    let r = book.make_reservation("2024-01-03", "2", "Car");
    assert_eq!(r.unwrap_err(), BookingError::PeriodAlreadyReserved("Car".to_string()));
    assert_eq!(book.len(), 2);
    assert_eq!(book.list_reservations(), before);
}

#[test]
fn item_names_match_without_case() {
    let mut book = ReservationBook::new();
    book.make_reservation("2024-01-01", "5", "Car").unwrap();
    let r = book.make_reservation("2024-01-02", "1", "car");
    assert_eq!(r.unwrap_err(), BookingError::PeriodAlreadyReserved("car".to_string()));
    let r = book.make_reservation("2024-01-02", "1", "CAR");
    assert_eq!(r.unwrap_err(), BookingError::PeriodAlreadyReserved("CAR".to_string()));
    assert_eq!(book.len(), 1);
}

#[test]
fn other_items_do_not_conflict() {
    let mut book = ReservationBook::new();
    book.make_reservation("2024-01-01", "5", "Car").unwrap();
    book.make_reservation("2024-01-01", "5", "House").unwrap();
    assert_eq!(book.len(), 2);
    assert!(book.make_reservation("2024-01-03", "1", "Cart").is_ok());
}

#[test]
fn invalid_durations_are_refused() {
    let mut book = ReservationBook::new();
    for d in ["0", "-1", "abc", "1.5", "+", "9223372036854775808"] {
        assert_eq!(book.make_reservation("2024-01-01", d, "Car").unwrap_err(), BookingError::InvalidDuration);
    }
    assert_eq!(book.make_reservation("2024-01-01", "", "Car").unwrap_err(), BookingError::MissingInput);
    assert_eq!(book.len(), 0);
}

#[test]
fn invalid_date_formats_are_refused() {
    let mut book = ReservationBook::new();
    for s in ["2024/01/01", "01-01-2024", "2024-1-05", "2024-01-5", "24-01-05", "2023-02-29", "2024-13-01", "2024-00-10", "2024-04-31"] {
        assert_eq!(book.make_reservation(s, "2", "Car").unwrap_err(), BookingError::InvalidDate);
    }
    assert_eq!(book.len(), 0);
}

#[test]
fn missing_input_is_reported_first() {
    assert_eq!(validate_request("   ", "abc"), Err(BookingError::MissingInput));
    assert_eq!(validate_request("bad", " \t"), Err(BookingError::MissingInput));
    assert_eq!(validate_request("bad", "0"), Err(BookingError::InvalidDuration));
    assert_eq!(validate_request("bad", "2"), Err(BookingError::InvalidDate));
}

#[test]
fn duration_text_is_trimmed() {
    assert_eq!(validate_request("2024-02-29", " +7\n"), Ok((date(2024, 2, 29), 7)));
    assert_eq!(validate_request("2024-01-01", "9223372036854775807"), Ok((date(2024, 1, 1), 9223372036854775807)));
}

#[test]
fn start_date_must_stand_alone() {
    assert_eq!(validate_request(" 2024-02-29", "7"), Err(BookingError::InvalidDate));
    assert_eq!(validate_request("2024-02-29 ", "7"), Err(BookingError::InvalidDate));
    assert_eq!(validate_request("2024-02-29\n", "7"), Err(BookingError::InvalidDate));
    let mut book = ReservationBook::new();
    assert_eq!(book.make_reservation("2024-01-01 ", "1", "Car").unwrap_err(), BookingError::InvalidDate);
    assert_eq!(book.len(), 0);
}

#[test]
fn parse_date_reads_strict_form() {
    assert_eq!(parse_date("2024-02-29"), Some(date(2024, 2, 29)));
    assert_eq!(parse_date("2000-02-29"), Some(date(2000, 2, 29)));
    assert_eq!(parse_date("1900-02-29"), None);
    assert_eq!(parse_date("0000-01-01"), Some(date(0, 1, 1)));
    assert_eq!(parse_date("9999-12-31"), Some(date(9999, 12, 31)));
    assert_eq!(parse_date(" 2024-02-01"), None);
}

#[test]
fn stay_past_calendar_end_is_refused() {
    let mut book = ReservationBook::new();
    let r = book.make_reservation("2024-01-01", "9223372036854775807", "Car");
    assert_eq!(r.unwrap_err(), BookingError::InvalidDuration);
    assert_eq!(book.len(), 0);
}

#[test]
fn end_date_crosses_months_and_years() {
    let mut book = ReservationBook::new();
    let r = book.make_reservation("2024-02-28", "3", "Car").unwrap();
    assert_eq!(r.end_date, date(2024, 3, 1));
    let r = book.make_reservation("9999-12-31", "2", "Boat").unwrap();
    assert_eq!(r.end_date, date(10000, 1, 1));
    let r = book.make_reservation("2024-06-10", "1", "Bike").unwrap();
    assert_eq!(r.end_date, r.start_date);
}

#[test]
fn listing_is_idempotent() {
    let mut book = ReservationBook::new();
    assert_eq!(book.list_reservations(), vec!["Aucune réservation".to_string()]);
    book.make_reservation("2024-01-01", "5", "Car").unwrap();
    book.make_reservation("2024-01-06", "3", "House").unwrap();
    let first = book.list_reservations();
    let second = book.list_reservations();
    assert_eq!(first, second);
    assert_eq!(
        first,
        vec![
            "Réservation 1: Car - Du 2024-01-01 au 2024-01-05 (5 jour(s))".to_string(),
            "Réservation 2: House - Du 2024-01-06 au 2024-01-08 (3 jour(s))".to_string(),
        ]
    );
}

#[test]
fn display_numbers_from_one_and_signs_large_years() {
    let mut book = ReservationBook::new();
    let r = book.make_reservation("9999-12-30", "12", "Boat").unwrap();
    assert_eq!(r.display(9), "Réservation 10: Boat - Du 9999-12-30 au +10000-01-10 (12 jour(s))");
    assert_eq!(book.get(0).display(0), "Réservation 1: Boat - Du 9999-12-30 au +10000-01-10 (12 jour(s))");
}

#[test]
fn messages_name_the_outcome() {
    let mut book = ReservationBook::new();
    let r = book.make_reservation("2024-01-01", "5", "Car").unwrap();
    assert_eq!(r.confirmation(), "Réservation confirmée pour Car du 2024-01-01 pour 5 jour(s)");
    let e = book.make_reservation("2024-01-02", "1", "car").unwrap_err();
    assert_eq!(e.message(), "Cette période est déjà réservée pour car");
    assert_eq!(BookingError::MissingInput.message(), "Date de début et durée sont requis");
    assert_eq!(BookingError::InvalidDuration.message(), "La durée doit être un nombre entier d'au moins 1 jour");
    assert_eq!(BookingError::InvalidDate.message(), "Date invalide (format attendu : AAAA-MM-JJ)");
}

#[test]
fn item_choice_is_checked() {
    assert_eq!(validate_item_choice("Voiture"), Ok(()));
    assert_eq!(validate_item_choice("Maison de ville"), Ok(()));
    assert_eq!(validate_item_choice(""), Err(ChoiceError::EmptyChoice));
    assert_eq!(validate_item_choice(" \t "), Err(ChoiceError::EmptyChoice));
    assert_eq!(validate_item_choice("Car2"), Err(ChoiceError::ChoiceContainsDigit));
    assert_eq!(validate_item_choice("Car\u{bd}"), Err(ChoiceError::ChoiceContainsDigit));
    assert_eq!(validate_item_choice("Caf\u{e9}"), Ok(()));
    assert_eq!(ChoiceError::EmptyChoice.message(), "Le choix ne peut pas être vide");
    assert_eq!(ChoiceError::ChoiceContainsDigit.message(), "Le choix ne peut pas contenir de chiffres");
}

#[test]
fn decimal_text_writes_digits() {
    assert_eq!(decimal_text(0), "0");
    assert_eq!(decimal_text(7), "7");
    assert_eq!(decimal_text(10), "10");
    assert_eq!(decimal_text(1234567890), "1234567890");
    assert_eq!(decimal_text(u64::MAX), "18446744073709551615");
}

#[test]
fn ascii_names_are_decided_by_digits() {
    assert_eq!(validate_item_choice("R2D2"), Err(ChoiceError::ChoiceContainsDigit));
    assert_eq!(validate_item_choice(" 7 "), Err(ChoiceError::ChoiceContainsDigit));
    assert_eq!(validate_item_choice("Car-Van_X"), Ok(()));
}
