use csvelo::structures::{
    hex_char_to_number, parse_digit, parse_hh_mm_ss_to_seconds_fast, parse_two_digit_int,
    parse_yyyymmdd_fast, OptionalDate,
    read_spelled_number, BikesAllowed, Color, ContinuousDropOffType, ContinuousPickupType, Date,
    DirectionId, DropOffType, ExceptionType, LocationType, OptionalServiceDayTime, PickupType,
    RouteType, ServiceAvailable, ServiceDayTime, TimePointType, WheelchairAccessible,
    WheelchairBoarding, YesOrNo,
};
use csvelo::ParseCsvField;

fn decode<'a, T: ParseCsvField<'a>>(field: &'a str) -> Result<T, ()> {
    T::parse_csv_field(field.as_bytes())
}

#[test]
fn codes_are_spelled_without_a_leading_zero() {
    assert_eq!(read_spelled_number(b"0"), Some(0));
    assert_eq!(read_spelled_number(b"9"), Some(9));
    assert_eq!(read_spelled_number(b"10"), Some(10));
    assert_eq!(read_spelled_number(b"99"), Some(99));
    assert_eq!(read_spelled_number(b""), None);
    assert_eq!(read_spelled_number(b"01"), None);
    assert_eq!(read_spelled_number(b"100"), None);
    assert_eq!(read_spelled_number(b"+1"), None);
    assert_eq!(read_spelled_number(b"1 "), None);
    assert_eq!(read_spelled_number(b"a"), None);
}

#[test]
fn pickup_and_drop_off_codes() {
    assert_eq!(decode::<PickupType>(""), Ok(PickupType::Regular));
    assert_eq!(decode::<PickupType>("0"), Ok(PickupType::Regular));
    assert_eq!(decode::<PickupType>("1"), Ok(PickupType::NotAvailable));
    assert_eq!(decode::<PickupType>("2"), Ok(PickupType::MustPhone));
    assert_eq!(decode::<PickupType>(" 3\t"), Ok(PickupType::MustCoordinateWithDriver));
    assert_eq!(decode::<PickupType>("4"), Ok(PickupType::Unknown));
    assert_eq!(decode::<PickupType>("00"), Ok(PickupType::Unknown));
    assert_eq!(decode::<PickupType>("x"), Ok(PickupType::Unknown));
    assert_eq!(PickupType::parse_csv_field(b"\xff\xfe"), Ok(PickupType::Unknown));
    assert_eq!(decode::<DropOffType>("  "), Ok(DropOffType::Regular));
    assert_eq!(decode::<DropOffType>("1"), Ok(DropOffType::NotAvailable));
    assert_eq!(decode::<DropOffType>("2"), Ok(DropOffType::MustPhone));
    assert_eq!(decode::<DropOffType>("3"), Ok(DropOffType::MustCoordinateWithDriver));
    assert_eq!(decode::<DropOffType>("-1"), Ok(DropOffType::Unknown));
    assert_eq!(decode::<ContinuousPickupType>("0"), Ok(ContinuousPickupType::Regular));
    assert_eq!(decode::<ContinuousPickupType>("1"), Ok(ContinuousPickupType::NotAvailable));
    assert_eq!(decode::<ContinuousPickupType>("2"), Ok(ContinuousPickupType::MustPhone));
    assert_eq!(
        decode::<ContinuousPickupType>("3"),
        Ok(ContinuousPickupType::MustCoordinateWithDriver)
    );
    assert_eq!(decode::<ContinuousPickupType>("33"), Ok(ContinuousPickupType::Unknown));
    assert_eq!(decode::<ContinuousDropOffType>(""), Ok(ContinuousDropOffType::Regular));
    assert_eq!(decode::<ContinuousDropOffType>("1"), Ok(ContinuousDropOffType::NotAvailable));
    assert_eq!(decode::<ContinuousDropOffType>("2"), Ok(ContinuousDropOffType::MustPhone));
    assert_eq!(
        decode::<ContinuousDropOffType>("3"),
        Ok(ContinuousDropOffType::MustCoordinateWithDriver)
    );
    assert_eq!(decode::<ContinuousDropOffType>("9"), Ok(ContinuousDropOffType::Unknown));
    assert_eq!(PickupType::default(), PickupType::Regular);
    assert_eq!(DropOffType::default(), DropOffType::Regular);
    assert_eq!(ContinuousPickupType::default(), ContinuousPickupType::Regular);
    assert_eq!(ContinuousDropOffType::default(), ContinuousDropOffType::Regular);
}

#[test]
fn codes_of_stops_and_trips() {
    assert_eq!(decode::<TimePointType>("0"), Ok(TimePointType::Approximate));
    assert_eq!(decode::<TimePointType>("1"), Ok(TimePointType::Exact));
    assert_eq!(decode::<TimePointType>(""), Ok(TimePointType::Exact));
    assert_eq!(decode::<TimePointType>("2"), Ok(TimePointType::Unknown));
    assert_eq!(TimePointType::default(), TimePointType::Exact);
    assert_eq!(decode::<LocationType>(""), Ok(LocationType::Stop));
    assert_eq!(decode::<LocationType>("0"), Ok(LocationType::Stop));
    assert_eq!(decode::<LocationType>("1"), Ok(LocationType::Station));
    assert_eq!(decode::<LocationType>("2"), Ok(LocationType::Entrance));
    assert_eq!(decode::<LocationType>("3"), Ok(LocationType::Generic));
    assert_eq!(decode::<LocationType>("4"), Ok(LocationType::BoardingArea));
    assert_eq!(decode::<LocationType>("5"), Ok(LocationType::Unknown));
    assert_eq!(LocationType::default(), LocationType::Stop);
    assert_eq!(decode::<WheelchairBoarding>(""), Ok(WheelchairBoarding::NoInfoOrSeeParent));
    assert_eq!(decode::<WheelchairBoarding>("0"), Ok(WheelchairBoarding::NoInfoOrSeeParent));
    assert_eq!(decode::<WheelchairBoarding>("1"), Ok(WheelchairBoarding::SomeAccessibility));
    assert_eq!(decode::<WheelchairBoarding>("2"), Ok(WheelchairBoarding::NoAccessibility));
    assert_eq!(decode::<WheelchairBoarding>("3"), Ok(WheelchairBoarding::Unknown));
    assert_eq!(decode::<DirectionId>("0"), Ok(DirectionId::Outbound));
    assert_eq!(decode::<DirectionId>("1"), Ok(DirectionId::Inbound));
    assert_eq!(decode::<DirectionId>(""), Ok(DirectionId::Unknown));
    assert_eq!(decode::<DirectionId>("2"), Ok(DirectionId::Unknown));
    assert_eq!(decode::<WheelchairAccessible>(""), Ok(WheelchairAccessible::NoInfo));
    assert_eq!(decode::<WheelchairAccessible>("1"), Ok(WheelchairAccessible::AtLeastOne));
    assert_eq!(decode::<WheelchairAccessible>("2"), Ok(WheelchairAccessible::No));
    assert_eq!(decode::<WheelchairAccessible>("7"), Ok(WheelchairAccessible::Unknown));
    assert_eq!(decode::<BikesAllowed>("0"), Ok(BikesAllowed::NoInfo));
    assert_eq!(decode::<BikesAllowed>("1"), Ok(BikesAllowed::AtLeastOne));
    assert_eq!(decode::<BikesAllowed>("2"), Ok(BikesAllowed::No));
    assert_eq!(decode::<BikesAllowed>("yes"), Ok(BikesAllowed::Unknown));
}

#[test]
fn codes_of_routes_and_calendars() {
    let kinds = [
        ("0", RouteType::Tram),
        ("1", RouteType::Subway),
        ("2", RouteType::Rail),
        ("3", RouteType::Bus),
        ("4", RouteType::Ferry),
        ("5", RouteType::CableTram),
        ("6", RouteType::AerialLift),
        ("7", RouteType::Funicular),
        ("11", RouteType::Trolleybus),
        ("12", RouteType::Monorail),
        ("", RouteType::Unknown),
        ("8", RouteType::Unknown),
        ("10", RouteType::Unknown),
        ("13", RouteType::Unknown),
        ("011", RouteType::Unknown),
        ("700", RouteType::Unknown),
    ];
    for (code, kind) in kinds {
        assert_eq!(decode::<RouteType>(code), Ok(kind));
    }
    assert_eq!(RouteType::default(), RouteType::Tram);
    assert_eq!(decode::<ServiceAvailable>("1"), Ok(ServiceAvailable::Yes));
    assert_eq!(decode::<ServiceAvailable>("0"), Ok(ServiceAvailable::No));
    assert_eq!(decode::<ServiceAvailable>(""), Ok(ServiceAvailable::Unknown));
    assert_eq!(decode::<ExceptionType>("1"), Ok(ExceptionType::Added));
    assert_eq!(decode::<ExceptionType>("2"), Ok(ExceptionType::Removed));
    assert_eq!(decode::<ExceptionType>("0"), Ok(ExceptionType::Unknown));
    assert_eq!(decode::<ExceptionType>(""), Ok(ExceptionType::Unknown));
    assert_eq!(decode::<YesOrNo>(""), Ok(YesOrNo::No));
    assert_eq!(decode::<YesOrNo>("0"), Ok(YesOrNo::No));
    assert_eq!(decode::<YesOrNo>("1"), Ok(YesOrNo::Yes));
    assert_eq!(decode::<YesOrNo>("2"), Ok(YesOrNo::Unknown));
}

#[test]
fn colors_are_six_hexadecimal_digits() {
    assert_eq!(decode::<Color>("FF8000"), Ok(Color { r: 255, g: 128, b: 0 }));
    assert_eq!(decode::<Color>(" 0a1B2c "), Ok(Color { r: 10, g: 27, b: 44 }));
    assert_eq!(decode::<Color>("000000"), Ok(Color { r: 0, g: 0, b: 0 }));
    // A byte that is no hexadecimal digit counts as 0.
    assert_eq!(decode::<Color>("zz12g9"), Ok(Color { r: 0, g: 18, b: 9 }));
    assert_eq!(decode::<Color>("FFF"), Err(()));
    assert_eq!(decode::<Color>("#FF8000"), Err(()));
    assert_eq!(decode::<Color>(""), Err(()));
    assert_eq!(hex_char_to_number(b'0'), 0);
    assert_eq!(hex_char_to_number(b'9'), 9);
    assert_eq!(hex_char_to_number(b'a'), 10);
    assert_eq!(hex_char_to_number(b'f'), 15);
    assert_eq!(hex_char_to_number(b'A'), 10);
    assert_eq!(hex_char_to_number(b'F'), 15);
    assert_eq!(hex_char_to_number(b'g'), 0);
    assert_eq!(hex_char_to_number(b'/'), 0);
    assert_eq!(hex_char_to_number(b':'), 0);
    assert_eq!(hex_char_to_number(b'@'), 0);
    assert_eq!(hex_char_to_number(b'`'), 0);
}

#[test]
fn dates_are_eight_digits() {
    let date = |year, month, day| Ok(OptionalDate(Some(Date { year, month, day })));
    assert_eq!(decode::<OptionalDate>("20240229"), date(2024, 2, 29));
    assert_eq!(decode::<OptionalDate>(" 19991231\r"), date(1999, 12, 31));
    assert_eq!(decode::<OptionalDate>("00000000"), date(0, 0, 0));
    assert_eq!(decode::<OptionalDate>("99999999"), date(9999, 99, 99));
    assert_eq!(parse_yyyymmdd_fast(b"20240229"), Some(Date { year: 2024, month: 2, day: 29 }));
}

#[test]
fn a_date_of_another_width_is_absent_and_no_failure() {
    assert_eq!(decode::<OptionalDate>("2024-01-01"), Ok(OptionalDate(None)));
    assert_eq!(decode::<OptionalDate>("2024-02-29"), Ok(OptionalDate(None)));
    assert_eq!(decode::<OptionalDate>("2024229"), Ok(OptionalDate(None)));
    assert_eq!(decode::<OptionalDate>("202402290"), Ok(OptionalDate(None)));
    assert_eq!(decode::<OptionalDate>(""), Ok(OptionalDate(None)));
    assert_eq!(decode::<OptionalDate>("   "), Ok(OptionalDate(None)));
    assert_eq!(OptionalDate::parse_csv_field(b"\xff"), Ok(OptionalDate(None)));
    assert_eq!(parse_yyyymmdd_fast(b""), None);
    assert_eq!(parse_yyyymmdd_fast(b" 20240229"), None);
}

#[test]
fn digits_are_read_without_a_check() {
    for c in 0..=255u8 {
        assert_eq!(parse_digit(c), c.wrapping_sub(b'0'));
        for d in [0u8, b'0', b'5', b'9', b':', 255] {
            assert_eq!(
                parse_two_digit_int(c, d),
                c.wrapping_sub(b'0').wrapping_mul(10).wrapping_add(d.wrapping_sub(b'0'))
            );
        }
    }
    let date = decode::<OptionalDate>("2x24/1:7").unwrap().0.unwrap();
    let digit = |c: u8| c.wrapping_sub(b'0') as u16;
    assert_eq!(
        date.year,
        digit(b'2')
            .wrapping_mul(1000)
            .wrapping_add(digit(b'x').wrapping_mul(100))
            .wrapping_add(digit(b'2').wrapping_mul(10))
            .wrapping_add(digit(b'4'))
    );
    assert_eq!(date.year, 9224);
    assert_eq!(date.month, 247);
    assert_eq!(date.day, 107);
}

#[test]
fn times_of_day_have_a_fixed_shape() {
    assert_eq!(parse_hh_mm_ss_to_seconds_fast(b"00:00:00"), Ok(0));
    assert_eq!(parse_hh_mm_ss_to_seconds_fast(b"01:02:03"), Ok(3723));
    assert_eq!(parse_hh_mm_ss_to_seconds_fast(b"25:30:00"), Ok(91800));
    assert_eq!(parse_hh_mm_ss_to_seconds_fast(b"99:99:99"), Ok(99 * 3600 + 99 * 60 + 99));
    assert_eq!(parse_hh_mm_ss_to_seconds_fast(b"12:34:56 and more"), Ok(45296));
    assert_eq!(parse_hh_mm_ss_to_seconds_fast(b"1:02:03"), Err(()));
    assert_eq!(parse_hh_mm_ss_to_seconds_fast(b"01-02-03"), Err(()));
    assert_eq!(parse_hh_mm_ss_to_seconds_fast(b"01:02:3"), Err(()));
    assert_eq!(parse_hh_mm_ss_to_seconds_fast(b""), Err(()));
    let time = decode::<OptionalServiceDayTime>(" 08:15:30 ").unwrap();
    assert_eq!(time.0.unwrap().seconds(), 8 * 3600 + 15 * 60 + 30);
    assert_eq!(decode::<OptionalServiceDayTime>("8:15:30"), Ok(OptionalServiceDayTime(None)));
    assert_eq!(decode::<OptionalServiceDayTime>(""), Ok(OptionalServiceDayTime(None)));
}

#[test]
fn codes_are_read_as_they_stand() {
    assert_eq!(PickupType::from_gtfs_str("0"), PickupType::Regular);
    assert_eq!(PickupType::from_gtfs_str("1"), PickupType::NotAvailable);
    assert_eq!(PickupType::from_gtfs_str("2"), PickupType::MustPhone);
    assert_eq!(PickupType::from_gtfs_str("3"), PickupType::MustCoordinateWithDriver);
    assert_eq!(PickupType::from_gtfs_str(""), PickupType::Unknown);
    assert_eq!(PickupType::from_gtfs_str(" 1"), PickupType::Unknown);
    assert_eq!(PickupType::from_gtfs_str("4"), PickupType::Unknown);
    assert_eq!(DropOffType::from_gtfs_str("0"), DropOffType::Regular);
    assert_eq!(DropOffType::from_gtfs_str("1"), DropOffType::NotAvailable);
    assert_eq!(DropOffType::from_gtfs_str("2"), DropOffType::MustPhone);
    assert_eq!(DropOffType::from_gtfs_str("3"), DropOffType::MustCoordinateWithDriver);
    assert_eq!(DropOffType::from_gtfs_str("03"), DropOffType::Unknown);
    assert_eq!(ContinuousPickupType::from_gtfs_str("0"), ContinuousPickupType::Regular);
    assert_eq!(ContinuousPickupType::from_gtfs_str("1"), ContinuousPickupType::NotAvailable);
    assert_eq!(ContinuousPickupType::from_gtfs_str("2"), ContinuousPickupType::MustPhone);
    assert_eq!(
        ContinuousPickupType::from_gtfs_str("3"),
        ContinuousPickupType::MustCoordinateWithDriver
    );
    assert_eq!(ContinuousPickupType::from_gtfs_str("x"), ContinuousPickupType::Unknown);
    assert_eq!(ContinuousDropOffType::from_gtfs_str("0"), ContinuousDropOffType::Regular);
    assert_eq!(ContinuousDropOffType::from_gtfs_str("1"), ContinuousDropOffType::NotAvailable);
    assert_eq!(ContinuousDropOffType::from_gtfs_str("2"), ContinuousDropOffType::MustPhone);
    assert_eq!(
        ContinuousDropOffType::from_gtfs_str("3"),
        ContinuousDropOffType::MustCoordinateWithDriver
    );
    assert_eq!(ContinuousDropOffType::from_gtfs_str(""), ContinuousDropOffType::Unknown);
    assert_eq!(TimePointType::from_gtfs_str("0"), TimePointType::Approximate);
    assert_eq!(TimePointType::from_gtfs_str("1"), TimePointType::Exact);
    assert_eq!(TimePointType::from_gtfs_str(""), TimePointType::Unknown);
    assert_eq!(TimePointType::from_gtfs_str("2"), TimePointType::Unknown);
}

fn seconds_part_by_part(time: &str) -> Option<u32> {
    let mut parts = time.split(":");
    let hours = parts.next()?;
    let minutes = parts.next()?;
    let seconds = parts.next()?;
    Some(
        hours
            .parse::<u32>()
            .ok()?
            .wrapping_mul(3600)
            .wrapping_add(minutes.parse::<u32>().ok()?.wrapping_mul(60))
            .wrapping_add(seconds.parse::<u32>().ok()?),
    )
}

#[test]
fn times_of_any_length_are_read_part_by_part() {
    let seconds = |time: &str| ServiceDayTime::from_gtfs_str(time).map(|t| t.seconds());
    assert_eq!(seconds("01:02:03"), Some(3723));
    assert_eq!(seconds("1:2:3"), Some(3723));
    assert_eq!(seconds("100:00:00"), Some(360000));
    assert_eq!(seconds("+1:+2:+3"), Some(3723));
    assert_eq!(seconds("1:2:3:4"), Some(3723));
    assert_eq!(seconds("1:2:3:"), Some(3723));
    assert_eq!(seconds("0:0:4294967295"), Some(u32::MAX));
    assert_eq!(seconds("0:0:4294967296"), None);
    assert_eq!(seconds("1:2"), None);
    assert_eq!(seconds("1:2:"), None);
    assert_eq!(seconds("::"), None);
    assert_eq!(seconds(""), None);
    assert_eq!(seconds("a:b:c"), None);
    assert_eq!(seconds("1:2:-3"), None);
    assert_eq!(seconds(" 1:2:3"), None);
    let parts = ["", "0", "7", "59", "+5", "-1", "x", "4294967295", "4294967296", "1193046", " 1"];
    for h in parts {
        for m in parts {
            for s in parts {
                for tail in ["", ":", ":9", ":x:y"] {
                    let time = format!("{}:{}:{}{}", h, m, s, tail);
                    assert_eq!(seconds(&time), seconds_part_by_part(&time), "{:?}", time);
                }
            }
            let time = format!("{}:{}", h, m);
            assert_eq!(seconds(&time), seconds_part_by_part(&time), "{:?}", time);
        }
        assert_eq!(seconds(h), seconds_part_by_part(h), "{:?}", h);
    }
}

#[test]
fn a_time_is_written_as_hours_minutes_and_seconds() {
    let parts = |time: &str| ServiceDayTime::from_gtfs_str(time).unwrap().hh_mm_ss();
    assert_eq!(parts("08:15:30"), (8, 15, 30));
    assert_eq!(parts("25:00:59"), (25, 0, 59));
    assert_eq!(parts("0:0:0"), (0, 0, 0));
    assert_eq!(parts("0:90:75"), (1, 31, 15));
    assert_eq!(parts("0:0:4294967295"), (1193046, 28, 15));
}
