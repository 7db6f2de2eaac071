use civiltime::day::Day;
use civiltime::delta::TimeDelta;
use civiltime::delta::Days;
use civiltime::format::{Alignment, SecondsFormat};
use civiltime::naive::{NaiveDate, NaiveTime};
use civiltime::offset::{FixedOffset, LocalResult, TimeZone, TransitionZone, Utc};
use civiltime::parse::ParseError;
use civiltime::datetime::{from_local_datetime, DateTime};
use std::time::{Duration, SystemTime, UNIX_EPOCH};

#[test]
fn test_datetime_offset() {
    let est = FixedOffset::west_opt(5 * 60 * 60).unwrap();
    let edt = FixedOffset::west_opt(4 * 60 * 60).unwrap();
    let kst = FixedOffset::east_opt(9 * 60 * 60).unwrap();

    assert_eq!(
        Utc.ymd_opt(2014, 5, 6).unwrap().and_hms_opt(7, 8, 9).unwrap().to_string(),
        "2014-05-06 07:08:09 UTC"
    );
    assert_eq!(
        edt.ymd_opt(2014, 5, 6).unwrap().and_hms_opt(7, 8, 9).unwrap().to_string(),
        "2014-05-06 07:08:09 -04:00"
    );
    assert_eq!(
        kst.ymd_opt(2014, 5, 6).unwrap().and_hms_opt(7, 8, 9).unwrap().to_string(),
        "2014-05-06 07:08:09 +09:00"
    );
    assert_eq!(
        Utc.ymd_opt(2014, 5, 6).unwrap().and_hms_opt(7, 8, 9).unwrap().to_debug_string(),
        "2014-05-06T07:08:09Z"
    );
    assert_eq!(
        edt.ymd_opt(2014, 5, 6).unwrap().and_hms_opt(7, 8, 9).unwrap().to_debug_string(),
        "2014-05-06T07:08:09-04:00"
    );
    assert_eq!(
        kst.ymd_opt(2014, 5, 6).unwrap().and_hms_opt(7, 8, 9).unwrap().to_debug_string(),
        "2014-05-06T07:08:09+09:00"
    );

    // edge cases
    assert_eq!(
        Utc.ymd_opt(2014, 5, 6).unwrap().and_hms_opt(0, 0, 0).unwrap().to_debug_string(),
        "2014-05-06T00:00:00Z"
    );
    assert_eq!(
        edt.ymd_opt(2014, 5, 6).unwrap().and_hms_opt(0, 0, 0).unwrap().to_debug_string(),
        "2014-05-06T00:00:00-04:00"
    );
    assert_eq!(
        kst.ymd_opt(2014, 5, 6).unwrap().and_hms_opt(0, 0, 0).unwrap().to_debug_string(),
        "2014-05-06T00:00:00+09:00"
    );
    assert_eq!(
        Utc.ymd_opt(2014, 5, 6).unwrap().and_hms_opt(23, 59, 59).unwrap().to_debug_string(),
        "2014-05-06T23:59:59Z"
    );
    assert_eq!(
        edt.ymd_opt(2014, 5, 6).unwrap().and_hms_opt(23, 59, 59).unwrap().to_debug_string(),
        "2014-05-06T23:59:59-04:00"
    );
    assert_eq!(
        kst.ymd_opt(2014, 5, 6).unwrap().and_hms_opt(23, 59, 59).unwrap().to_debug_string(),
        "2014-05-06T23:59:59+09:00"
    );

    let dt = Utc.ymd_opt(2014, 5, 6).unwrap().and_hms_opt(7, 8, 9).unwrap();
    assert_eq!(dt, edt.ymd_opt(2014, 5, 6).unwrap().and_hms_opt(3, 8, 9).unwrap());
    assert_eq!(
        dt.checked_add_signed(TimeDelta::seconds(3600 + 60 + 1)).unwrap(),
        Utc.ymd_opt(2014, 5, 6).unwrap().and_hms_opt(8, 9, 10).unwrap()
    );
    assert_eq!(
        dt.signed_duration_since(&edt.ymd_opt(2014, 5, 6).unwrap().and_hms_opt(10, 11, 12).unwrap()),
        TimeDelta::seconds(-7 * 3600 - 3 * 60 - 3)
    );

    assert_eq!(Utc.ymd_opt(2014, 5, 6).unwrap().and_hms_opt(7, 8, 9).unwrap().timezone(), Utc);
    assert_eq!(edt.ymd_opt(2014, 5, 6).unwrap().and_hms_opt(7, 8, 9).unwrap().offset(), edt);
    assert!(edt.ymd_opt(2014, 5, 6).unwrap().and_hms_opt(7, 8, 9).unwrap().offset() != est);
}

#[test]
fn test_datetime_date_and_time() {
    let tz = FixedOffset::east_opt(5 * 60 * 60).unwrap();
    let d = tz.ymd_opt(2014, 5, 6).unwrap().and_hms_opt(7, 8, 9).unwrap();
    assert_eq!(d.time(), NaiveTime::from_hms_opt(7, 8, 9).unwrap());
    assert_eq!(d.date(), tz.ymd_opt(2014, 5, 6).unwrap());
    assert_eq!(d.date().naive_local(), NaiveDate::from_ymd_opt(2014, 5, 6).unwrap());
    assert_eq!(d.date().and_time(d.time()), Some(d));

    let tz = FixedOffset::east_opt(4 * 60 * 60).unwrap();
    let d = tz.ymd_opt(2016, 5, 4).unwrap().and_hms_opt(3, 2, 1).unwrap();
    assert_eq!(d.time(), NaiveTime::from_hms_opt(3, 2, 1).unwrap());
    assert_eq!(d.date(), tz.ymd_opt(2016, 5, 4).unwrap());
    assert_eq!(d.date().naive_local(), NaiveDate::from_ymd_opt(2016, 5, 4).unwrap());
    assert_eq!(d.date().and_time(d.time()), Some(d));

    let tz = FixedOffset::west_opt(13 * 60 * 60).unwrap();
    let d = tz.ymd_opt(2017, 8, 9).unwrap().and_hms_opt(12, 34, 56).unwrap();
    assert_eq!(d.time(), NaiveTime::from_hms_opt(12, 34, 56).unwrap());
    assert_eq!(d.date(), tz.ymd_opt(2017, 8, 9).unwrap());
    assert_eq!(d.date().naive_local(), NaiveDate::from_ymd_opt(2017, 8, 9).unwrap());
    assert_eq!(d.date().and_time(d.time()), Some(d));

    let utc_d = Utc.ymd_opt(2017, 8, 9).unwrap().and_hms_opt(12, 34, 56).unwrap();
    assert!(utc_d < d);
}

#[test]
fn test_datetime_rfc2822_and_rfc3339() {
    let edt = FixedOffset::east_opt(5 * 60 * 60).unwrap();
    assert_eq!(
        Utc.ymd_opt(2015, 2, 18).unwrap().and_hms_opt(23, 16, 9).unwrap().to_rfc2822(),
        "Wed, 18 Feb 2015 23:16:09 +0000"
    );
    assert_eq!(
        Utc.ymd_opt(2015, 2, 18).unwrap().and_hms_opt(23, 16, 9).unwrap().to_rfc3339(),
        "2015-02-18T23:16:09+00:00"
    );
    assert_eq!(
        edt.ymd_opt(2015, 2, 18).unwrap().and_hms_milli_opt(23, 16, 9, 150).unwrap().to_rfc2822(),
        "Wed, 18 Feb 2015 23:16:09 +0500"
    );
    assert_eq!(
        edt.ymd_opt(2015, 2, 18).unwrap().and_hms_milli_opt(23, 16, 9, 150).unwrap().to_rfc3339(),
        "2015-02-18T23:16:09.150+05:00"
    );
    assert_eq!(
        edt.ymd_opt(2015, 2, 18)
            .unwrap()
            .and_hms_micro_opt(23, 59, 59, 1_234_567)
            .unwrap()
            .to_rfc2822(),
        "Wed, 18 Feb 2015 23:59:60 +0500"
    );
    assert_eq!(
        edt.ymd_opt(2015, 2, 18)
            .unwrap()
            .and_hms_micro_opt(23, 59, 59, 1_234_567)
            .unwrap()
            .to_rfc3339(),
        "2015-02-18T23:59:60.234567+05:00"
    );

    assert_eq!(
        DateTime::<FixedOffset>::parse_from_rfc2822("Wed, 18 Feb 2015 23:16:09 +0000"),
        Ok(FixedOffset::east_opt(0)
            .unwrap()
            .ymd_opt(2015, 2, 18)
            .unwrap()
            .and_hms_opt(23, 16, 9)
            .unwrap())
    );
    assert_eq!(
        DateTime::<FixedOffset>::parse_from_rfc2822("Wed, 18 Feb 2015 23:16:09 -0000"),
        Ok(FixedOffset::east_opt(0)
            .unwrap()
            .ymd_opt(2015, 2, 18)
            .unwrap()
            .and_hms_opt(23, 16, 9)
            .unwrap())
    );
    assert_eq!(
        DateTime::<FixedOffset>::parse_from_rfc3339("2015-02-18T23:16:09Z"),
        Ok(FixedOffset::east_opt(0)
            .unwrap()
            .ymd_opt(2015, 2, 18)
            .unwrap()
            .and_hms_opt(23, 16, 9)
            .unwrap())
    );
    assert_eq!(
        DateTime::<FixedOffset>::parse_from_rfc2822("Wed, 18 Feb 2015 23:59:60 +0500"),
        Ok(edt.ymd_opt(2015, 2, 18).unwrap().and_hms_milli_opt(23, 59, 59, 1_000).unwrap())
    );
    assert!(DateTime::<FixedOffset>::parse_from_rfc2822("31 DEC 262143 23:59 -2359").is_err());
    assert_eq!(
        DateTime::<FixedOffset>::parse_from_rfc3339("2015-02-18T23:59:60.234567+05:00"),
        Ok(edt.ymd_opt(2015, 2, 18).unwrap().and_hms_micro_opt(23, 59, 59, 1_234_567).unwrap())
    );
}

#[test]
fn test_rfc3339_opts() {
    let pst = FixedOffset::east_opt(8 * 60 * 60).unwrap();
    let dt = pst.ymd_opt(2018, 1, 11).unwrap().and_hms_nano_opt(10, 5, 13, 84_660_000).unwrap();
    assert_eq!(dt.to_rfc3339_opts(SecondsFormat::Secs, false), "2018-01-11T10:05:13+08:00");
    assert_eq!(dt.to_rfc3339_opts(SecondsFormat::Secs, true), "2018-01-11T10:05:13+08:00");
    assert_eq!(dt.to_rfc3339_opts(SecondsFormat::Millis, false), "2018-01-11T10:05:13.084+08:00");
    assert_eq!(dt.to_rfc3339_opts(SecondsFormat::Micros, false), "2018-01-11T10:05:13.084660+08:00");
    assert_eq!(dt.to_rfc3339_opts(SecondsFormat::Nanos, false), "2018-01-11T10:05:13.084660000+08:00");
    assert_eq!(dt.to_rfc3339_opts(SecondsFormat::AutoSi, false), "2018-01-11T10:05:13.084660+08:00");

    let ut = DateTime::<Utc>::from_utc(dt.naive_utc(), Utc);
    assert_eq!(ut.to_rfc3339_opts(SecondsFormat::Secs, false), "2018-01-11T02:05:13+00:00");
    assert_eq!(ut.to_rfc3339_opts(SecondsFormat::Secs, true), "2018-01-11T02:05:13Z");
    assert_eq!(ut.to_rfc3339_opts(SecondsFormat::Millis, false), "2018-01-11T02:05:13.084+00:00");
    assert_eq!(ut.to_rfc3339_opts(SecondsFormat::Millis, true), "2018-01-11T02:05:13.084Z");
    assert_eq!(ut.to_rfc3339_opts(SecondsFormat::Micros, true), "2018-01-11T02:05:13.084660Z");
    assert_eq!(ut.to_rfc3339_opts(SecondsFormat::Nanos, true), "2018-01-11T02:05:13.084660000Z");
    assert_eq!(ut.to_rfc3339_opts(SecondsFormat::AutoSi, true), "2018-01-11T02:05:13.084660Z");
}

#[test]
fn test_datetime_from_str() {
    assert_eq!(
        "2015-02-18T23:16:9.15Z".parse::<DateTime<FixedOffset>>(),
        Ok(FixedOffset::east_opt(0)
            .unwrap()
            .ymd_opt(2015, 2, 18)
            .unwrap()
            .and_hms_milli_opt(23, 16, 9, 150)
            .unwrap())
    );
    assert_eq!(
        "2015-02-18T23:16:9.15Z".parse::<DateTime<Utc>>(),
        Ok(Utc.ymd_opt(2015, 2, 18).unwrap().and_hms_milli_opt(23, 16, 9, 150).unwrap())
    );
    assert_eq!(
        "2015-02-18T23:16:9.15 UTC".parse::<DateTime<Utc>>(),
        Ok(Utc.ymd_opt(2015, 2, 18).unwrap().and_hms_milli_opt(23, 16, 9, 150).unwrap())
    );
    assert_eq!(
        "2015-02-18T23:16:9.15UTC".parse::<DateTime<Utc>>(),
        Ok(Utc.ymd_opt(2015, 2, 18).unwrap().and_hms_milli_opt(23, 16, 9, 150).unwrap())
    );

    assert_eq!(
        "2015-2-18T23:16:9.15Z".parse::<DateTime<FixedOffset>>(),
        Ok(FixedOffset::east_opt(0)
            .unwrap()
            .ymd_opt(2015, 2, 18)
            .unwrap()
            .and_hms_milli_opt(23, 16, 9, 150)
            .unwrap())
    );
    assert_eq!(
        "2015-2-18T13:16:9.15-10:00".parse::<DateTime<FixedOffset>>(),
        Ok(FixedOffset::west_opt(10 * 3600)
            .unwrap()
            .ymd_opt(2015, 2, 18)
            .unwrap()
            .and_hms_milli_opt(13, 16, 9, 150)
            .unwrap())
    );
    assert!("2015-2-18T23:16:9.15".parse::<DateTime<FixedOffset>>().is_err());

    assert_eq!(
        "2015-2-18T23:16:9.15Z".parse::<DateTime<Utc>>(),
        Ok(Utc.ymd_opt(2015, 2, 18).unwrap().and_hms_milli_opt(23, 16, 9, 150).unwrap())
    );
    assert_eq!(
        "2015-2-18T13:16:9.15-10:00".parse::<DateTime<Utc>>(),
        Ok(Utc.ymd_opt(2015, 2, 18).unwrap().and_hms_milli_opt(23, 16, 9, 150).unwrap())
    );
    assert!("2015-2-18T23:16:9.15".parse::<DateTime<Utc>>().is_err());
}

#[test]
fn test_to_string_round_trip() {
    let dt = Utc.ymd_opt(2000, 1, 1).unwrap().and_hms_opt(0, 0, 0).unwrap();
    let _dt: DateTime<Utc> = dt.to_string().parse().unwrap();

    let ndt_fixed = dt.with_timezone(&FixedOffset::east_opt(3600).unwrap());
    let _dt: DateTime<FixedOffset> = ndt_fixed.to_string().parse().unwrap();

    let ndt_fixed = dt.with_timezone(&FixedOffset::east_opt(0).unwrap());
    let _dt: DateTime<FixedOffset> = ndt_fixed.to_string().parse().unwrap();
}

#[test]
fn test_subsecond_part() {
    let datetime = Utc.ymd_opt(2014, 7, 8).unwrap().and_hms_nano_opt(9, 10, 11, 1234567).unwrap();

    assert_eq!(1, datetime.timestamp_subsec_millis());
    assert_eq!(1234, datetime.timestamp_subsec_micros());
    assert_eq!(1234567, datetime.timestamp_subsec_nanos());
}

#[test]
fn test_datetime_from_local() {
    // 2000-01-12T02:00:00Z
    let naivedatetime_utc =
        NaiveDate::from_ymd_opt(2000, 1, 12).unwrap().and_hms_opt(2, 0, 0).unwrap();
    let datetime_utc = DateTime::<Utc>::from_utc(naivedatetime_utc, Utc);

    // 2000-01-12T10:00:00+8:00:00
    let timezone_east = FixedOffset::east_opt(8 * 60 * 60).unwrap();
    let naivedatetime_east =
        NaiveDate::from_ymd_opt(2000, 1, 12).unwrap().and_hms_opt(10, 0, 0).unwrap();
    let datetime_east = DateTime::<FixedOffset>::from_local(naivedatetime_east, timezone_east);

    // 2000-01-11T19:00:00-7:00:00
    let timezone_west = FixedOffset::west_opt(7 * 60 * 60).unwrap();
    let naivedatetime_west =
        NaiveDate::from_ymd_opt(2000, 1, 11).unwrap().and_hms_opt(19, 0, 0).unwrap();
    let datetime_west = DateTime::<FixedOffset>::from_local(naivedatetime_west, timezone_west);

    assert_eq!(datetime_east, datetime_utc.with_timezone(&timezone_east));
    assert_eq!(datetime_west, datetime_utc.with_timezone(&timezone_west));
}

#[test]
fn test_datetime_add_assign() {
    let naivedatetime = NaiveDate::from_ymd_opt(2000, 1, 1).unwrap().and_hms_opt(0, 0, 0).unwrap();
    let datetime = DateTime::<Utc>::from_utc(naivedatetime, Utc);
    let mut datetime_add = datetime;

    datetime_add = datetime_add.checked_add_signed(TimeDelta::seconds(60)).unwrap();
    assert_eq!(datetime_add, datetime.checked_add_signed(TimeDelta::seconds(60)).unwrap());

    let timezone = FixedOffset::east_opt(60 * 60).unwrap();
    let datetime = datetime.with_timezone(&timezone);
    let datetime_add = datetime_add.with_timezone(&timezone);

    assert_eq!(datetime_add, datetime.checked_add_signed(TimeDelta::seconds(60)).unwrap());

    let timezone = FixedOffset::west_opt(2 * 60 * 60).unwrap();
    let datetime = datetime.with_timezone(&timezone);
    let datetime_add = datetime_add.with_timezone(&timezone);

    assert_eq!(datetime_add, datetime.checked_add_signed(TimeDelta::seconds(60)).unwrap());
}

#[test]
fn test_datetime_sub_assign() {
    let naivedatetime = NaiveDate::from_ymd_opt(2000, 1, 1).unwrap().and_hms_opt(12, 0, 0).unwrap();
    let datetime = DateTime::<Utc>::from_utc(naivedatetime, Utc);
    let mut datetime_sub = datetime;

    datetime_sub = datetime_sub.checked_sub_signed(TimeDelta::minutes(90)).unwrap();
    assert_eq!(datetime_sub, datetime.checked_sub_signed(TimeDelta::minutes(90)).unwrap());

    let timezone = FixedOffset::east_opt(60 * 60).unwrap();
    let datetime = datetime.with_timezone(&timezone);
    let datetime_sub = datetime_sub.with_timezone(&timezone);

    assert_eq!(datetime_sub, datetime.checked_sub_signed(TimeDelta::minutes(90)).unwrap());

    let timezone = FixedOffset::west_opt(2 * 60 * 60).unwrap();
    let datetime = datetime.with_timezone(&timezone);
    let datetime_sub = datetime_sub.with_timezone(&timezone);

    assert_eq!(datetime_sub, datetime.checked_sub_signed(TimeDelta::minutes(90)).unwrap());
}

#[test]
fn parse_error_kinds() {
    assert_eq!(DateTime::<FixedOffset>::parse_from_rfc3339("2015-02-18T23:16:09"), Err(ParseError::NotEnough));
    assert_eq!(DateTime::<FixedOffset>::parse_from_rfc3339("2015-02-18X23:16:09Z"), Err(ParseError::Invalid));
    assert_eq!(DateTime::<FixedOffset>::parse_from_rfc3339("2015-02-18T23:16"), Err(ParseError::TooShort));
    assert_eq!(DateTime::<FixedOffset>::parse_from_rfc3339("2015-02-18T23:16:09Zx"), Err(ParseError::TooLong));
    assert_eq!(DateTime::<FixedOffset>::parse_from_rfc3339("2015-02-30T23:16:09Z"), Err(ParseError::OutOfRange));
    assert_eq!(DateTime::<FixedOffset>::parse_from_rfc3339("2015-02-18T23:16:09+24:00"), Err(ParseError::OutOfRange));
}

#[test]
fn day_steps_and_start() {
    let d = Day::new(NaiveDate::from_ymd_opt(2016, 2, 28).unwrap(), Utc);
    assert_eq!(d.succ().unwrap().date(), NaiveDate::from_ymd_opt(2016, 2, 29).unwrap());
    assert_eq!(d.succ().unwrap().succ().unwrap().date(), NaiveDate::from_ymd_opt(2016, 3, 1).unwrap());
    assert_eq!(d.pred().unwrap().date(), NaiveDate::from_ymd_opt(2016, 2, 27).unwrap());
    let start = d.start();
    assert_eq!(start.to_rfc3339(), "2016-02-28T00:00:00+00:00");
    let kst = FixedOffset::east_opt(9 * 3600).unwrap();
    let k = Day::new(NaiveDate::from_ymd_opt(2014, 5, 6).unwrap(), kst);
    assert_eq!(k.start().to_rfc3339(), "2014-05-06T00:00:00+09:00");
    assert_eq!(k.start().naive_utc(), NaiveDate::from_ymd_opt(2014, 5, 5).unwrap().and_hms_opt(15, 0, 0).unwrap());
}

#[test]
fn test_datetime_parse_from_str() {
    let ymdhms = |y, m, d, h, n, s, off| {
        FixedOffset::east_opt(off).unwrap().ymd_opt(y, m, d).unwrap().and_hms_opt(h, n, s).unwrap()
    };
    assert_eq!(
        DateTime::<FixedOffset>::parse_from_str("2014-5-7T12:34:56+09:30", "%Y-%m-%dT%H:%M:%S%z"),
        Ok(ymdhms(2014, 5, 7, 12, 34, 56, 570 * 60))
    ); // ignore offset
    assert!(DateTime::<FixedOffset>::parse_from_str("20140507000000", "%Y%m%d%H%M%S").is_err()); // no offset
    assert!(DateTime::<FixedOffset>::parse_from_str(
        "Fri, 09 Aug 2013 23:54:35 GMT",
        "%a, %d %b %Y %H:%M:%S GMT"
    )
    .is_err());
    assert_eq!(
        Utc.datetime_from_str("Fri, 09 Aug 2013 23:54:35 GMT", "%a, %d %b %Y %H:%M:%S GMT"),
        Ok(Utc.ymd_opt(2013, 8, 9).unwrap().and_hms_opt(23, 54, 35).unwrap())
    );
}

#[test]
fn test_datetime_format_alignment() {
    let datetime = Utc.ymd_opt(2007, 1, 2).unwrap();

    // Item::Literal
    let percent = "%%";
    assert_eq!("  %", datetime.format_aligned(percent, 3, Alignment::Right, b' ').unwrap());
    assert_eq!("%  ", datetime.format_aligned(percent, 3, Alignment::Left, b' ').unwrap());
    assert_eq!(" % ", datetime.format_aligned(percent, 3, Alignment::Center, b' ').unwrap());

    // Item::Numeric
    let year = "%Y";
    assert_eq!("  2007", datetime.format_aligned(year, 6, Alignment::Right, b' ').unwrap());
    assert_eq!("2007  ", datetime.format_aligned(year, 6, Alignment::Left, b' ').unwrap());
    assert_eq!(" 2007 ", datetime.format_aligned(year, 6, Alignment::Center, b' ').unwrap());

    // Item::Fixed
    let tz = "%Z";
    assert_eq!("  UTC", datetime.format_aligned(tz, 5, Alignment::Right, b' ').unwrap());
    assert_eq!("UTC  ", datetime.format_aligned(tz, 5, Alignment::Left, b' ').unwrap());
    assert_eq!(" UTC ", datetime.format_aligned(tz, 5, Alignment::Center, b' ').unwrap());

    // [Item::Numeric, Item::Space, Item::Literal, Item::Space, Item::Numeric]
    let ymd = "%Y %B %d";
    let ymd_formatted = "2007 January 02";
    assert_eq!(format!("  {}", ymd_formatted), datetime.format_aligned(ymd, 17, Alignment::Right, b' ').unwrap());
    assert_eq!(format!("{}  ", ymd_formatted), datetime.format_aligned(ymd, 17, Alignment::Left, b' ').unwrap());
    assert_eq!(format!(" {} ", ymd_formatted), datetime.format_aligned(ymd, 17, Alignment::Center, b' ').unwrap());
}

#[test]
fn rfc3339_round_trip_at_each_precision() {
    let tz = FixedOffset::west_opt(3 * 3600 + 30 * 60).unwrap();
    let dt = tz.ymd_opt(1999, 12, 31).unwrap().and_hms_nano_opt(23, 59, 58, 123_456_789).unwrap();
    let nanos = DateTime::<FixedOffset>::parse_from_rfc3339(&dt.to_rfc3339_opts(SecondsFormat::Nanos, false));
    assert_eq!(nanos, Ok(dt));
    let auto = DateTime::<FixedOffset>::parse_from_rfc3339(&dt.to_rfc3339_opts(SecondsFormat::AutoSi, true));
    assert_eq!(auto, Ok(dt));
    let millis = DateTime::<FixedOffset>::parse_from_rfc3339(&dt.to_rfc3339_opts(SecondsFormat::Millis, false));
    assert_eq!(millis.unwrap().timestamp_subsec_nanos(), 123_000_000);
    let whole = tz.ymd_opt(1999, 12, 31).unwrap().and_hms_opt(1, 2, 3).unwrap();
    assert_eq!(DateTime::<FixedOffset>::parse_from_rfc3339(&whole.to_rfc3339()), Ok(whole));
    assert_eq!(DateTime::<FixedOffset>::parse_from_rfc2822(&whole.to_rfc2822()), Ok(whole));
}

#[test]
fn same_moment_in_two_zones() {
    let a = Utc.ymd_opt(2020, 3, 1).unwrap().and_hms_opt(12, 0, 0).unwrap();
    let b = a.with_timezone(&FixedOffset::east_opt(-7 * 3600).unwrap());
    assert_eq!(a, b);
    assert_eq!(a.signed_duration_since(&b), TimeDelta::zero());
    assert_eq!(b.to_rfc3339(), "2020-03-01T05:00:00-07:00");
}

#[test]
fn add_days_then_step_back() {
    let d = Day::new(NaiveDate::from_ymd_opt(2019, 12, 30).unwrap(), Utc);
    let n: u64 = 400;
    let mut e = d.checked_add_days(Days::new(n)).unwrap();
    for _ in 0..n {
        e = e.pred().unwrap();
    }
    assert_eq!(e.date(), d.date());
    assert_eq!(d.checked_add_days(Days::new(0)).unwrap().date(), d.date());
    assert_eq!(d.checked_sub_days(Days::new(365)).unwrap().date(), NaiveDate::from_ymd_opt(2018, 12, 30).unwrap());
    let last = Day::new(NaiveDate::from_ymd_opt(262143, 12, 31).unwrap(), Utc);
    assert!(last.succ().is_none());
    assert!(last.checked_add_days(Days::new(1)).is_none());
    assert!(d.checked_add_days(Days::new(u64::MAX)).is_none());
    let first = Day::new(NaiveDate::from_ymd_opt(-262144, 1, 1).unwrap(), Utc);
    assert!(first.pred().is_none());
}

#[test]
fn leap_second_literal() {
    let dt = DateTime::<FixedOffset>::parse_from_rfc3339("2016-12-31T23:59:60.5Z").unwrap();
    assert_eq!(dt.time().nanosecond(), 1_500_000_000);
    assert_eq!(dt.time().num_seconds_from_midnight() % 60, 59);
    assert_eq!(dt.to_rfc3339_opts(SecondsFormat::Millis, false), "2016-12-31T23:59:60.500+00:00");
    let u = DateTime::<Utc>::from_utc(dt.naive_utc(), Utc);
    assert_eq!(u.to_rfc3339_opts(SecondsFormat::Millis, true), "2016-12-31T23:59:60.500Z");
}

#[test]
fn fixed_offset_scenario() {
    let kst = FixedOffset::east_opt(9 * 3600).unwrap();
    let dt = kst.ymd_opt(2014, 5, 6).unwrap().and_hms_opt(7, 8, 9).unwrap();
    assert_eq!(dt.to_rfc3339(), "2014-05-06T07:08:09+09:00");
    let later = dt.checked_add_signed(TimeDelta::seconds(3661)).unwrap();
    assert_eq!(later.naive_local(), NaiveDate::from_ymd_opt(2014, 5, 6).unwrap().and_hms_opt(8, 9, 10).unwrap());
    assert_eq!(later.offset(), kst);
}

#[test]
fn rfc2822_leap_second_truncates() {
    let edt = FixedOffset::east_opt(5 * 3600).unwrap();
    let a = DateTime::<FixedOffset>::parse_from_rfc2822("Wed, 18 Feb 2015 23:59:60 +0500").unwrap();
    let b = DateTime::<FixedOffset>::parse_from_rfc3339("2015-02-18T23:59:60.234567+05:00").unwrap();
    assert_eq!(a, edt.ymd_opt(2015, 2, 18).unwrap().and_hms_milli_opt(23, 59, 59, 1_000).unwrap());
    assert_eq!(a.timestamp(), b.timestamp());
    assert_eq!(a.timestamp_subsec_millis(), 1_000);
    assert_eq!(b.timestamp_subsec_millis(), 1_234);
}

#[test]
fn rfc2822_forms() {
    let want = Utc.ymd_opt(1999, 3, 4).unwrap().and_hms_opt(5, 6, 0).unwrap();
    assert_eq!(DateTime::<FixedOffset>::parse_from_rfc2822("4 Mar 99 05:06 GMT"), Ok(want.with_timezone(&FixedOffset::east_opt(0).unwrap())));
    let est = DateTime::<FixedOffset>::parse_from_rfc2822("Thu, 4 mar 1999 00:06:00 EST").unwrap();
    assert_eq!(est, want);
    assert_eq!(DateTime::<FixedOffset>::parse_from_rfc2822("Fri, 4 Mar 1999 00:06:00 EST"), Err(ParseError::Impossible));
    assert_eq!(DateTime::<FixedOffset>::parse_from_rfc2822("4 Mar 1999 00:06:00"), Err(ParseError::TooShort));
    assert_eq!(DateTime::<FixedOffset>::parse_from_str("2014-05-07", "%Y-%m-%d %Q"), Err(ParseError::BadFormat));
}

#[test]
fn calendar_edges() {
    assert!(NaiveDate::from_ymd_opt(2015, 2, 29).is_none());
    assert!(NaiveDate::from_ymd_opt(2016, 2, 29).is_some());
    assert!(NaiveDate::from_ymd_opt(1900, 2, 29).is_none());
    assert!(NaiveDate::from_ymd_opt(2000, 2, 29).is_some());
    assert!(NaiveDate::from_ymd_opt(2014, 5, 32).is_none());
    let d = NaiveDate::from_ymd_opt(2000, 2, 29).unwrap();
    assert_eq!(d.ymd(), (2000, 2, 29));
    assert_eq!(d.weekday(), 1);
    assert_eq!(NaiveDate::from_ymd_opt(1970, 1, 1).unwrap().weekday(), 3);
    assert_eq!(TimeDelta::weeks(1), TimeDelta::days(7));
    assert_eq!(TimeDelta::milliseconds(-1500).total_nanos(), -1_500_000_000);
}

#[test]
fn test_datetime_is_copy() {
    // UTC is known to be `Copy`.
    let a = Utc::now();
    let b = a;
    assert_eq!(a, b);
}

#[test]
fn tests_test_from_system_time() {
    let epoch = Utc.ymd_opt(1970, 1, 1).unwrap().and_hms_opt(0, 0, 0).unwrap();
    let nanos = 999_999_999;

    // SystemTime -> DateTime<Utc>
    assert_eq!(DateTime::<Utc>::from_system_time(UNIX_EPOCH), epoch);
    assert_eq!(
        DateTime::<Utc>::from_system_time(UNIX_EPOCH + Duration::new(999_999_999, nanos)),
        Utc.ymd_opt(2001, 9, 9).unwrap().and_hms_nano_opt(1, 46, 39, nanos).unwrap()
    );
    assert_eq!(
        DateTime::<Utc>::from_system_time(UNIX_EPOCH - Duration::new(999_999_999, nanos)),
        Utc.ymd_opt(1938, 4, 24).unwrap().and_hms_nano_opt(22, 13, 20, 1).unwrap()
    );

    // DateTime<Utc> -> SystemTime
    assert_eq!(epoch.to_system_time().unwrap(), UNIX_EPOCH);
    assert_eq!(
        Utc.ymd_opt(2001, 9, 9).unwrap().and_hms_nano_opt(1, 46, 39, nanos).unwrap().to_system_time().unwrap(),
        UNIX_EPOCH + Duration::new(999_999_999, nanos)
    );
    assert_eq!(
        Utc.ymd_opt(1938, 4, 24).unwrap().and_hms_nano_opt(22, 13, 20, 1).unwrap().to_system_time().unwrap(),
        UNIX_EPOCH - Duration::new(999_999_999, 999_999_999)
    );

    // DateTime<any tz> -> SystemTime (via `with_timezone`)
    assert_eq!(
        epoch.with_timezone(&FixedOffset::east_opt(32400).unwrap()).to_system_time().unwrap(),
        UNIX_EPOCH
    );
    assert_eq!(
        epoch.with_timezone(&FixedOffset::west_opt(28800).unwrap()).to_system_time().unwrap(),
        UNIX_EPOCH
    );
}

#[test]
fn test_start_time() {
    assert_eq!(
        Day::from_datetime(Utc::now()).start(),
        from_local_datetime(&Utc, &Utc::now().date_naive().and_hms_opt(0, 0, 0).unwrap())
            .unwrap()
            .single()
            .unwrap(),
    );
}

#[test]
fn clock_saturates_at_range_ends() {
    let far = DateTime::<Utc>::from_unix_parts(false, u64::MAX, 0);
    assert_eq!(far.naive_utc().date(), NaiveDate::from_ymd_opt(262143, 12, 31).unwrap());
    let early = DateTime::<Utc>::from_unix_parts(true, u64::MAX, 0);
    assert_eq!(early.naive_utc(), NaiveDate::from_ymd_opt(-262144, 1, 1).unwrap().and_hms_opt(0, 0, 0).unwrap());
    let t = DateTime::<Utc>::from_unix_parts(true, 1, 500_000_000);
    assert_eq!(t.to_rfc3339(), "1969-12-31T23:59:58.500+00:00");
}

#[test]
fn day_text_form() {
    let kst = FixedOffset::east_opt(9 * 3600).unwrap();
    assert_eq!(Day::new(NaiveDate::from_ymd_opt(2014, 5, 6).unwrap(), kst).to_string(), "2014-05-06 +09:00");
    assert_eq!(Day::new(NaiveDate::from_ymd_opt(2014, 5, 6).unwrap(), Utc).to_string(), "2014-05-06 UTC");
    assert!(Day::new(NaiveDate::from_ymd_opt(2014, 5, 6).unwrap(), kst).format_aligned("%H", 0, Alignment::Left, b' ').is_none());
}

#[test]
fn test_years_elapsed() {
    const WEEKS_PER_YEAR: f32 = 52.1775;

    // This is always at least one year because 1 year = 52.1775 weeks.
    let one_year_ago =
        Utc::today().checked_sub_days(Days::new(7 * (WEEKS_PER_YEAR * 1.5).ceil() as u64)).unwrap();
    // A bit more than 2 years.
    let two_year_ago =
        Utc::today().checked_sub_days(Days::new(7 * (WEEKS_PER_YEAR * 2.5).ceil() as u64)).unwrap();

    assert_eq!(Utc::today().years_since(one_year_ago), Some(1));
    assert_eq!(Utc::today().years_since(two_year_ago), Some(2));

    // If the given DateTime is later than now, the function will always return 0.
    let future = Utc::today().checked_add_days(Days::new(7 * 12)).unwrap();
    assert_eq!(Utc::today().years_since(future), None);
}

#[test]
fn years_since_on_birthdays() {
    let base = Day::new(NaiveDate::from_ymd_opt(2000, 2, 29).unwrap(), Utc);
    let d = |y, m, dd| Day::new(NaiveDate::from_ymd_opt(y, m, dd).unwrap(), Utc);
    assert_eq!(d(2001, 2, 28).years_since(base), Some(0));
    assert_eq!(d(2001, 3, 1).years_since(base), Some(1));
    assert_eq!(d(2004, 2, 29).years_since(base), Some(4));
    assert_eq!(d(2000, 2, 28).years_since(base), None);
}

fn clocks_back_at_midnight() -> TransitionZone {
    // +01:00 until 2021-10-31T00:00Z, +00:00 after: local 00:00 to 00:59 occurs twice.
    TransitionZone::new(
        FixedOffset::east_opt(3600).unwrap(),
        FixedOffset::east_opt(0).unwrap(),
        NaiveDate::from_ymd_opt(2021, 10, 31).unwrap().and_hms_opt(0, 0, 0).unwrap(),
    )
}

fn clocks_forward_at_midnight() -> TransitionZone {
    // +00:00 until 2021-03-28T00:00Z, +01:00 after: local 00:00 to 00:59 never occurs.
    TransitionZone::new(
        FixedOffset::east_opt(0).unwrap(),
        FixedOffset::east_opt(3600).unwrap(),
        NaiveDate::from_ymd_opt(2021, 3, 28).unwrap().and_hms_opt(0, 0, 0).unwrap(),
    )
}

#[test]
fn ambiguous_reading_gives_two_instants_and_start_takes_the_earlier() {
    let tz = clocks_back_at_midnight();
    let local = NaiveDate::from_ymd_opt(2021, 10, 31).unwrap().and_hms_opt(0, 30, 0).unwrap();
    match tz.offset_from_local_datetime(&local) {
        LocalResult::Ambiguous(a, b) => {
            assert_eq!(a, FixedOffset::east_opt(3600).unwrap());
            assert_eq!(b, FixedOffset::east_opt(0).unwrap());
            assert!(a != b);
        }
        _ => panic!("expected two offsets"),
    }
    match from_local_datetime(&tz, &local).unwrap() {
        LocalResult::Ambiguous(x, y) => {
            assert!(x != y);
            assert!(x < y);
        }
        _ => panic!("expected two instants"),
    }
    let start = Day::new(NaiveDate::from_ymd_opt(2021, 10, 31).unwrap(), tz).start();
    assert_eq!(start.naive_utc(), NaiveDate::from_ymd_opt(2021, 10, 30).unwrap().and_hms_opt(23, 0, 0).unwrap());
    assert_eq!(start.to_rfc3339(), "2021-10-31T00:00:00+01:00");
}

#[test]
fn start_of_day_skips_a_gap() {
    let tz = clocks_forward_at_midnight();
    let local = NaiveDate::from_ymd_opt(2021, 3, 28).unwrap().and_hms_opt(0, 30, 0).unwrap();
    assert_eq!(tz.offset_from_local_datetime(&local), LocalResult::Gap);
    let start = Day::new(NaiveDate::from_ymd_opt(2021, 3, 28).unwrap(), tz).start();
    assert_eq!(start.naive_utc(), NaiveDate::from_ymd_opt(2021, 3, 28).unwrap().and_hms_opt(0, 0, 0).unwrap());
    assert_eq!(start.to_rfc3339(), "2021-03-28T01:00:00+01:00");
    let before = Day::new(NaiveDate::from_ymd_opt(2021, 3, 27).unwrap(), tz).start();
    assert_eq!(before.to_rfc3339(), "2021-03-27T00:00:00+00:00");
}

#[test]
fn leap_second_only_at_end_of_minute() {
    assert!(NaiveTime::from_hms_nano_opt(12, 30, 15, 1_500_000_000).is_none());
    assert!(NaiveTime::from_hms_nano_opt(12, 30, 59, 1_500_000_000).is_some());
    assert!(NaiveTime::from_hms_milli_opt(12, 30, 15, 1_000).is_none());
    assert!(NaiveTime::from_num_seconds_from_midnight_opt(45_015, 1_000_000_000).is_none());
    assert!(NaiveTime::from_num_seconds_from_midnight_opt(45_059, 1_000_000_000).is_some());
}

#[test]
fn start_reads_back_on_its_own_day() {
    for tz in [clocks_back_at_midnight(), clocks_forward_at_midnight()] {
        for (y, m, d) in [(2021, 10, 31), (2021, 3, 28), (2021, 6, 1)] {
            let day = Day::new(NaiveDate::from_ymd_opt(y, m, d).unwrap(), tz);
            let start = day.start();
            assert_eq!(Day::from_datetime(start), day);
            assert_eq!(start.date_naive(), day.date());
        }
    }
    let day = Day::new(NaiveDate::from_ymd_opt(2021, 3, 28).unwrap(), clocks_forward_at_midnight());
    assert_eq!(day.start().naive_local(), NaiveDate::from_ymd_opt(2021, 3, 28).unwrap().and_hms_opt(1, 0, 0).unwrap());
}

#[test]
fn unix_parts_split_around_the_epoch() {
    let after = Utc.ymd_opt(2001, 9, 9).unwrap().and_hms_nano_opt(1, 46, 39, 5).unwrap();
    assert_eq!(after.unix_parts(), (0, 999_999_999, 5));
    let before = Utc.ymd_opt(1969, 12, 31).unwrap().and_hms_nano_opt(23, 59, 58, 7).unwrap();
    assert_eq!(before.unix_parts(), (2, 0, 7));
    let leap = Utc.ymd_opt(2016, 12, 31).unwrap().and_hms_nano_opt(23, 59, 59, 1_000_000_000).unwrap();
    assert_eq!(leap.unix_parts(), (0, 1_483_228_799, 1_000_000_000));
}
