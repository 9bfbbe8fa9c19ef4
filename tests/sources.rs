use inky_display::{competition_code_to_name, format_match_date, get_weather_info, ServerConfig};

#[test]
fn weather_codes() {
    assert_eq!(get_weather_info(0), ("Clear sky", "clear-day.svg"));
    assert_eq!(get_weather_info(33), ("Dust or haze", "sandstorm.svg"));
    assert_eq!(get_weather_info(45), ("Fog", "fog.svg"));
    assert_eq!(get_weather_info(81), ("Moderate rain", "rain.svg"));
    assert_eq!(get_weather_info(37), ("Blowing snow", "blowingsnow.svg"));
    assert_eq!(get_weather_info(79), ("Sleet", "sleet.svg"));
    assert_eq!(get_weather_info(99), ("Heavy thunderstorm", "thunderstorm-hail.svg"));
    assert_eq!(get_weather_info(19), ("Tornado", "tornado.svg"));
    assert_eq!(get_weather_info(100), ("Unknown", "unknown.svg"));
}

#[test]
fn competition_names() {
    assert_eq!(competition_code_to_name("PL"), "PL");
    assert_eq!(competition_code_to_name("ELC"), "EFL");
    assert_eq!(competition_code_to_name("EFL"), "LC");
    assert_eq!(competition_code_to_name("DED"), "ERE");
    assert_eq!(competition_code_to_name("XYZ"), "Cup");
    assert_eq!(competition_code_to_name(""), "Cup");
}

#[test]
fn match_dates() {
    assert_eq!(format_match_date("2025-01-20T15:00:00Z"), "Jan 20");
    assert_eq!(format_match_date("2025-12-05"), "Dec 5");
    assert_eq!(format_match_date("2025-+3-+07T00:00"), "Mar 7");
    assert_eq!(format_match_date("2025-02-30-extra"), "Feb 30");
    assert_eq!(format_match_date("2025-13-01"), "???");
    assert_eq!(format_match_date("2025-00-01"), "???");
    assert_eq!(format_match_date("2025-01-"), "???");
    assert_eq!(format_match_date("2025-01-99999999999"), "???");
    assert_eq!(format_match_date("garbage"), "???");
    assert_eq!(format_match_date("20T25-01-20"), "???");
    assert_eq!(format_match_date(""), "???");
}

#[test]
fn server_config_values() {
    let c = ServerConfig::from_values(Some("9000"), "http://frame:8080".to_string(), None);
    assert_eq!(c.port, 9000);
    assert_eq!(c.frame_url, "http://frame:8080");
    assert_eq!(c.static_root, "./static");

    let c = ServerConfig::from_values(None, String::new(), Some("/srv/static".to_string()));
    assert_eq!(c.port, 8080);
    assert_eq!(c.static_root, "/srv/static");

    assert_eq!(ServerConfig::from_values(Some("70000"), String::new(), None).port, 8080);
    assert_eq!(ServerConfig::from_values(Some("abc"), String::new(), None).port, 8080);
    assert_eq!(ServerConfig::from_values(Some("+80"), String::new(), None).port, 80);
    assert_eq!(ServerConfig::from_values(Some(""), String::new(), None).port, 8080);
}
