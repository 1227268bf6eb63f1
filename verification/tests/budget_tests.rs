use budgy::db::default_category_names;
use budgy::receipt::encode_image_base64;
use budgy::receipt::receipt_file_name;
use budgy::subscription::frequency_period_days;
use budgy::subscription::group_by_vendor;
use budgy::subscription::receipts_of_vendor;
use budgy::subscription::predict_next_date;
use budgy::subscription::CalendarDay;
use budgy::subscription::FIRST_CALENDAR_DAY;
use budgy::subscription::LAST_CALENDAR_DAY;
use base64::engine::general_purpose::STANDARD;
use base64::Engine;
use chrono::Datelike;
use chrono::NaiveDate;

fn day(y: i32, m: u32, d: u32) -> CalendarDay {
    CalendarDay { days_from_ce: NaiveDate::from_ymd_opt(y, m, d).unwrap().num_days_from_ce() }
}

#[test]
fn next_payment_dates() {
    assert_eq!(predict_next_date(day(2024, 1, 31), "monthly"), Some(day(2024, 3, 1)));
    assert_eq!(predict_next_date(day(2024, 1, 31), "weekly"), Some(day(2024, 2, 7)));
    assert_eq!(predict_next_date(day(2023, 3, 1), "yearly"), Some(day(2024, 2, 29)));
    assert_eq!(predict_next_date(day(2024, 12, 15), "fortnightly"), Some(day(2025, 1, 14)));
    assert_eq!(frequency_period_days("Monthly"), 30);
    assert_eq!(frequency_period_days("yearly"), 365);
    assert_eq!(predict_next_date(CalendarDay { days_from_ce: i32::MAX }, "weekly"), None);
    assert_eq!(
        predict_next_date(CalendarDay { days_from_ce: LAST_CALENDAR_DAY - 7 }, "weekly"),
        Some(CalendarDay { days_from_ce: LAST_CALENDAR_DAY })
    );
    assert_eq!(predict_next_date(CalendarDay { days_from_ce: LAST_CALENDAR_DAY - 6 }, "weekly"), None);
    assert_eq!(
        predict_next_date(CalendarDay { days_from_ce: FIRST_CALENDAR_DAY }, "yearly"),
        Some(CalendarDay { days_from_ce: FIRST_CALENDAR_DAY + 365 })
    );
    assert_eq!(predict_next_date(CalendarDay { days_from_ce: FIRST_CALENDAR_DAY - 1 }, "yearly"), None);
    assert_eq!(
        NaiveDate::MIN.num_days_from_ce(),
        FIRST_CALENDAR_DAY
    );
    assert_eq!(NaiveDate::MAX.num_days_from_ce(), LAST_CALENDAR_DAY);
}

#[test]
fn images_encode_as_standard_base64() {
    assert_eq!(encode_image_base64(b""), "");
    assert_eq!(encode_image_base64(b"h"), "aA==");
    assert_eq!(encode_image_base64(b"he"), "aGU=");
    assert_eq!(encode_image_base64(b"hello"), "aGVsbG8=");
    assert_eq!(encode_image_base64(&[0xff, 0xfe, 0x00]), "//4A");
    for n in 0..10usize {
        let data: Vec<u8> = (0..n).map(|i| (i * 37 + 5) as u8).collect();
        let encoded = encode_image_base64(&data);
        assert_eq!(encoded.len(), 4 * ((n + 2) / 3));
        assert_eq!(STANDARD.decode(&encoded).unwrap(), data);
    }
}

#[test]
fn receipt_file_names() {
    assert_eq!(receipt_file_name(1712400000123), "receipt_1712400000123.jpg");
    assert_eq!(receipt_file_name(0), "receipt_0.jpg");
    assert_eq!(receipt_file_name(-5), "receipt_-5.jpg");
}

#[test]
fn default_categories() {
    assert_eq!(
        default_category_names(),
        vec!["Food", "Transport", "Utilities", "Entertainment", "Shopping", "Health", "Other"]
    );
}

#[test]
fn receipts_group_by_vendor_in_order_of_first_receipt() {
    let vendors = vec![
        Some("Netflix".to_string()),
        None,
        Some("Spotify".to_string()),
        Some("Netflix".to_string()),
        Some("netflix".to_string()),
        Some("Spotify".to_string()),
    ];
    let groups = group_by_vendor(&vendors);
    let summary: Vec<(String, Vec<usize>)> =
        groups.iter().map(|g| (g.vendor.clone(), g.receipts.clone())).collect();
    assert_eq!(
        summary,
        vec![
            ("Netflix".to_string(), vec![0, 3]),
            ("Spotify".to_string(), vec![2, 5]),
            ("netflix".to_string(), vec![4]),
        ]
    );
    assert!(group_by_vendor(&vec![None, None]).is_empty());
}

#[test]
fn receipts_of_one_vendor() {
    let vendors = vec![Some("A".to_string()), None, Some("B".to_string()), Some("A".to_string())];
    assert_eq!(receipts_of_vendor(&vendors, "A"), vec![0, 3]);
    assert_eq!(receipts_of_vendor(&vendors, "C"), Vec::<usize>::new());
}
