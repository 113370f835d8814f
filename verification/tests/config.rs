use polysynth::fixed_point::FixedPoint;
use polysynth::opts::{
    log_level, supported_channel_count, voice_count, Command, LogLevel, MAX_VOICES,
};
use polysynth::ports::{has_prefix, select_device, select_port, DeviceChoice, PortError};
use polysynth::synthesis::UnisonMode;

#[test]
fn fixed_point_keeps_its_units() {
    let number = FixedPoint::<3>::from_u32(1500);
    assert_eq!(number.get_u32(), 1500);
    assert_eq!(FixedPoint::<3>::from_u32(0).get_u32(), 0);
    assert_eq!(FixedPoint::<9>::from_u32(u32::MAX).get_u32(), u32::MAX);
    assert_eq!(FixedPoint::<3>::from_u32(7), FixedPoint::<3>::from_u32(7));
    assert_ne!(FixedPoint::<3>::from_u32(7), FixedPoint::<3>::from_u32(8));
}

#[test]
fn fixed_point_scale_is_a_power_of_ten() {
    assert_eq!(FixedPoint::<0>::scale_u32(), 1);
    assert_eq!(FixedPoint::<1>::scale_u32(), 10);
    assert_eq!(FixedPoint::<3>::scale_u32(), 1000);
    assert_eq!(FixedPoint::<6>::scale_u32(), polysynth::maths::ONE);
    assert_eq!(FixedPoint::<9>::scale_u32(), 1_000_000_000);
}

#[test]
fn mono_and_stereo_are_supported() {
    assert!(!supported_channel_count(0));
    assert!(supported_channel_count(1));
    assert!(supported_channel_count(2));
    assert!(!supported_channel_count(3));
    assert!(!supported_channel_count(u16::MAX));
}

#[test]
fn voice_count_is_kept_in_range() {
    assert_eq!(voice_count(0), MAX_VOICES);
    assert_eq!(voice_count(1), 1);
    assert_eq!(voice_count(MAX_VOICES as u64), MAX_VOICES);
    assert_eq!(voice_count(MAX_VOICES as u64 + 1), MAX_VOICES);
    assert_eq!(voice_count(u64::MAX), MAX_VOICES);
}

#[test]
fn commands_differ() {
    assert_ne!(Command::Run, Command::ListDevices);
}

#[test]
fn log_level_starts_at_info_and_stops_at_the_ends() {
    assert_eq!(log_level(0, 0), LogLevel::Info);
    assert_eq!(log_level(1, 0), LogLevel::Debug);
    assert_eq!(log_level(2, 0), LogLevel::Trace);
    assert_eq!(log_level(9, 0), LogLevel::Trace);
    assert_eq!(log_level(0, 1), LogLevel::Warn);
    assert_eq!(log_level(0, 2), LogLevel::Error);
    assert_eq!(log_level(0, 3), LogLevel::Off);
    assert_eq!(log_level(0, 40), LogLevel::Off);
    assert_eq!(log_level(5, 5), LogLevel::Info);
    assert_eq!(log_level(7, 6), LogLevel::Debug);
    assert_eq!(log_level(u64::MAX, 0), LogLevel::Trace);
    assert_eq!(log_level(0, u64::MAX), LogLevel::Off);
    assert_eq!(log_level(u64::MAX, u64::MAX), LogLevel::Info);
}

#[test]
fn unison_mode_is_read_in_any_case() {
    assert_eq!(UnisonMode::parse("u"), Some(UnisonMode::Unison));
    assert_eq!(UnisonMode::parse("unison"), Some(UnisonMode::Unison));
    assert_eq!(UnisonMode::parse("UNISON"), Some(UnisonMode::Unison));
    assert_eq!(UnisonMode::parse("p"), Some(UnisonMode::Poly));
    assert_eq!(UnisonMode::parse("poly"), Some(UnisonMode::Poly));
    assert_eq!(UnisonMode::parse("POLY"), Some(UnisonMode::Poly));
    assert_eq!(UnisonMode::parse("Polyphonic"), Some(UnisonMode::Poly));
    assert_eq!(UnisonMode::parse(""), None);
    assert_eq!(UnisonMode::parse("mono"), None);
    assert_eq!(UnisonMode::parse(" poly"), None);
    assert_eq!(UnisonMode::parse("polyphonics"), None);
}

#[test]
fn unison_mode_from_a_word_as_it_stands() {
    assert_eq!(UnisonMode::from_lowercase(&"unison".to_string()), Some(UnisonMode::Unison));
    assert_eq!(UnisonMode::from_lowercase(&"Unison".to_string()), None);
    assert_eq!(UnisonMode::from_lowercase(&"p".to_string()), Some(UnisonMode::Poly));
    assert_eq!(UnisonMode::from_lowercase(&"P".to_string()), None);
}

fn names(list: &[Option<&str>]) -> Vec<Option<String>> {
    list.iter().map(|name| name.map(|n| n.to_string())).collect()
}

fn wanted(name: &str) -> Option<String> {
    Some(name.to_string())
}

#[test]
fn port_by_name_is_the_first_that_begins_with_it() {
    let ports = names(&[
        Some("Midi Through:0"),
        None,
        Some("Keystation 49"),
        Some("Keystation 61"),
    ]);
    assert_eq!(select_port(&ports, &wanted("Keystation"), None), Ok(2));
    assert_eq!(select_port(&ports, &wanted("Keystation 6"), None), Ok(3));
    assert_eq!(select_port(&ports, &wanted("Midi Through:0"), None), Ok(0));
    assert_eq!(select_port(&ports, &wanted(""), None), Ok(0));
    assert_eq!(select_port(&ports, &wanted("Keystation"), Some(0)), Ok(2));
    assert_eq!(select_port(&ports, &wanted("keystation"), None), Err(PortError::NoPortNamed));
    assert_eq!(select_port(&ports, &wanted("Midi Through:0 "), None), Err(PortError::NoPortNamed));
    assert_eq!(select_port(&ports, &wanted("Through"), Some(1)), Err(PortError::NoPortNamed));
    assert_eq!(select_port(&names(&[None]), &wanted(""), None), Err(PortError::NoPortNamed));
    assert_eq!(select_port(&names(&[]), &wanted("x"), None), Err(PortError::NoPortNamed));
}

#[test]
fn port_by_index_is_taken_as_it_is() {
    let ports = names(&[Some("a"), None, Some("c")]);
    assert_eq!(select_port(&ports, &None, Some(0)), Ok(0));
    assert_eq!(select_port(&ports, &None, Some(1)), Ok(1));
    assert_eq!(select_port(&ports, &None, Some(2)), Ok(2));
    assert_eq!(select_port(&ports, &None, Some(3)), Err(PortError::IndexOutOfRange));
    assert_eq!(select_port(&names(&[]), &None, Some(0)), Err(PortError::IndexOutOfRange));
}

#[test]
fn port_without_a_wish_is_the_first() {
    assert_eq!(select_port(&names(&[Some("a"), Some("b")]), &None, None), Ok(0));
    assert_eq!(select_port(&names(&[None]), &None, None), Ok(0));
    assert_eq!(select_port(&names(&[]), &None, None), Err(PortError::NoPorts));
}

#[test]
fn prefixes_are_compared_byte_for_byte() {
    assert!(has_prefix("Keystation", "Key"));
    assert!(has_prefix("Keystation", ""));
    assert!(has_prefix("Keystation", "Keystation"));
    assert!(!has_prefix("Keystation", "Keystation 49"));
    assert!(!has_prefix("Keystation", "key"));
    assert!(has_prefix("Gerät 1", "Gerä"));
    assert!(!has_prefix("Gerat 1", "Gerä"));
}

#[test]
fn device_by_name() {
    let devices = names(&[Some("pulse"), None, Some("hw:0"), Some("hw:0")]);
    assert_eq!(select_device(&devices, &"default".to_string()), DeviceChoice::Default);
    assert_eq!(select_device(&names(&[]), &"default".to_string()), DeviceChoice::Default);
    assert_eq!(select_device(&devices, &"pulse".to_string()), DeviceChoice::Listed(0));
    assert_eq!(select_device(&devices, &"hw:0".to_string()), DeviceChoice::Listed(2));
    assert_eq!(select_device(&devices, &"hw".to_string()), DeviceChoice::Missing);
    assert_eq!(select_device(&devices, &"Default".to_string()), DeviceChoice::Missing);
    let named_default = names(&[Some("default")]);
    assert_eq!(select_device(&named_default, &"default".to_string()), DeviceChoice::Default);
}
