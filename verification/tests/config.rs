use s3lightfixes::binary32::Binary32;
use s3lightfixes::key::{ClaimedSet, ObjectKey};
use s3lightfixes::light_config::{Bucket, CLASSIC_RADIUS_BITS};
use s3lightfixes::output::{output_target, OutputTarget, PathStatus};
use s3lightfixes::{to_io_error, LightArgs, LightConfig, DEFAULT_CONFIG_NAME, LOG_NAME};

fn number(x: f32) -> Binary32 {
    Binary32::from_bits(x.to_bits())
}

fn no_args() -> LightArgs {
    LightArgs {
        openmw_cfg: None,
        use_classic: false,
        output: None,
        write_log: false,
        auto_enable: false,
        no_notifications: false,
        debug: false,
        info: false,
        disable_flickering: None,
        standard_hue: None,
        standard_saturation: None,
        standard_value: None,
        standard_radius: None,
        colored_hue: None,
        colored_saturation: None,
        colored_value: None,
        colored_radius: None,
    }
}

#[test]
fn default_coefficients_have_their_published_values() {
    assert_eq!(f32::from_bits(s3lightfixes::default::standard_hue().to_bits()), 0.62);
    assert_eq!(f32::from_bits(s3lightfixes::default::standard_saturation().to_bits()), 0.8);
    assert_eq!(f32::from_bits(s3lightfixes::default::standard_value().to_bits()), 0.57);
    assert_eq!(f32::from_bits(s3lightfixes::default::standard_radius().to_bits()), 1.2);
    assert_eq!(f32::from_bits(s3lightfixes::default::colored_hue().to_bits()), 1.0);
    assert_eq!(f32::from_bits(s3lightfixes::default::colored_saturation().to_bits()), 0.9);
    assert_eq!(f32::from_bits(s3lightfixes::default::colored_value().to_bits()), 0.7);
    assert_eq!(f32::from_bits(s3lightfixes::default::colored_radius().to_bits()), 1.1);
    assert_eq!(f32::from_bits(CLASSIC_RADIUS_BITS), 2.0);
}

#[test]
fn default_configuration() {
    let config = LightConfig::default();
    assert!(!config.disable_interior_sun);
    assert!(config.disable_flickering);
    assert!(!config.save_log);
    assert_eq!(config.standard_hue, number(0.62));
    assert_eq!(config.standard_saturation, number(0.8));
    assert_eq!(config.standard_value, number(0.57));
    assert_eq!(config.standard_radius, number(1.2));
    assert_eq!(config.colored_hue, number(1.0));
    assert_eq!(config.colored_saturation, number(0.9));
    assert_eq!(config.colored_value, number(0.7));
    assert_eq!(config.colored_radius, number(1.1));
}

#[test]
fn coefficients_by_bucket() {
    let config = LightConfig::default();
    let standard = config.bucket_coefficients(Bucket::Standard);
    assert_eq!(standard.hue, number(0.62));
    assert_eq!(standard.saturation, number(0.8));
    assert_eq!(standard.value, number(0.57));
    assert_eq!(standard.radius, number(1.2));
    let colored = config.bucket_coefficients(Bucket::Colored);
    assert_eq!(colored.hue, number(1.0));
    assert_eq!(colored.saturation, number(0.9));
    assert_eq!(colored.value, number(0.7));
    assert_eq!(colored.radius, number(1.1));
}

#[test]
fn without_arguments_the_stored_configuration_stands() {
    let mut stored = LightConfig::default();
    stored.standard_hue = number(0.5);
    stored.colored_radius = number(3.0);
    stored.disable_flickering = false;
    stored.save_log = true;
    assert_eq!(LightConfig::get(&no_args(), Some(stored)), stored);
    assert_eq!(LightConfig::get(&no_args(), None), LightConfig::default());
}

#[test]
fn arguments_replace_stored_values() {
    let mut args = no_args();
    args.standard_hue = Some(number(0.1));
    args.standard_saturation = Some(number(0.2));
    args.standard_value = Some(number(0.3));
    args.standard_radius = Some(number(0.4));
    args.colored_hue = Some(number(0.5));
    args.colored_saturation = Some(number(0.6));
    args.colored_value = Some(number(0.75));
    args.colored_radius = Some(number(0.85));
    args.disable_flickering = Some(false);
    let config = LightConfig::get(&args, None);
    assert_eq!(config.standard_hue, number(0.1));
    assert_eq!(config.standard_saturation, number(0.2));
    assert_eq!(config.standard_value, number(0.3));
    assert_eq!(config.standard_radius, number(0.4));
    assert_eq!(config.colored_hue, number(0.5));
    assert_eq!(config.colored_saturation, number(0.6));
    assert_eq!(config.colored_value, number(0.75));
    assert_eq!(config.colored_radius, number(0.85));
    assert!(!config.disable_flickering);
    assert!(!config.disable_interior_sun);
    assert!(!config.save_log);
}

#[test]
fn one_argument_replaces_one_value() {
    let mut stored = LightConfig::default();
    stored.colored_value = number(0.33);
    let mut args = no_args();
    args.colored_hue = Some(number(0.9));
    let config = LightConfig::get(&args, Some(stored));
    let mut expected = stored;
    expected.colored_hue = number(0.9);
    assert_eq!(config, expected);
}

#[test]
fn classic_mode_fixes_the_standard_radius_and_strips_interiors() {
    let mut args = no_args();
    args.use_classic = true;
    args.standard_radius = Some(number(5.0));
    let config = LightConfig::get(&args, None);
    assert_eq!(config.standard_radius, number(2.0));
    assert!(config.disable_interior_sun);
    assert_eq!(config.colored_radius, number(1.1));
}

#[test]
fn nothing_stored_switches_the_interior_flag_on() {
    let mut stored = LightConfig::default();
    stored.disable_interior_sun = true;
    let config = LightConfig::get(&no_args(), Some(stored));
    assert!(!config.disable_interior_sun);
    assert_eq!(config.standard_radius, number(1.2));
    let mut args = no_args();
    args.use_classic = true;
    let config = LightConfig::get(&args, Some(stored));
    assert!(config.disable_interior_sun);
    assert_eq!(config.standard_radius, number(2.0));
}

#[test]
fn settings_are_stored_where_none_were() {
    assert!(LightConfig::store_needed(&None));
    assert!(!LightConfig::store_needed(&Some(LightConfig::default())));
}

#[test]
fn file_names() {
    assert_eq!(DEFAULT_CONFIG_NAME, "lightconfig.toml");
    assert_eq!(LOG_NAME, "lightconfig.log");
}

#[test]
fn keys_are_folded_to_lower_case() {
    assert_eq!(ObjectKey::new("Torch_01").as_bytes(), &b"torch_01".to_vec());
    assert_eq!(ObjectKey::new("AZaz@[`{").as_bytes(), &b"azaz@[`{".to_vec());
    assert_eq!(ObjectKey::new("").as_bytes(), &Vec::<u8>::new());
    // Only ASCII letters are folded.
    let key = ObjectKey::new("\u{c4}rger");
    assert_eq!(key.as_bytes(), &"\u{c4}rger".as_bytes().to_vec());
    assert!(ObjectKey::new("TORCH").matches(&ObjectKey::new("torch")));
    assert!(!ObjectKey::new("torch").matches(&ObjectKey::new("torch_")));
    assert!(!ObjectKey::new("torch").matches(&ObjectKey::new("torcg")));
}

#[test]
fn a_key_is_claimed_once() {
    let mut claimed = ClaimedSet::new();
    assert!(!claimed.contains(&ObjectKey::new("torch_01")));
    assert!(claimed.claim(ObjectKey::new("torch_01")));
    assert!(claimed.contains(&ObjectKey::new("TORCH_01")));
    assert!(!claimed.claim(ObjectKey::new("Torch_01")));
    assert!(!claimed.claim(ObjectKey::new("torch_01")));
    assert!(claimed.claim(ObjectKey::new("torch_02")));
    assert!(!claimed.claim(ObjectKey::new("TORCH_02")));
    assert!(!claimed.claim(ObjectKey::new("torch_01")));
}

#[test]
fn output_goes_to_the_configured_directory_where_it_can() {
    assert_eq!(output_target(PathStatus::Directory), Some(OutputTarget::Configured));
    assert_eq!(output_target(PathStatus::Missing), Some(OutputTarget::Created));
    assert_eq!(
        output_target(PathStatus::NotDirectory),
        Some(OutputTarget::WorkingDirectory)
    );
    assert_eq!(output_target(PathStatus::Unreadable), None);
}

#[test]
fn other_errors_become_invalid_data() {
    let error = to_io_error("expected a number at line 3");
    assert_eq!(error.kind(), std::io::ErrorKind::InvalidData);
    assert_eq!(error.to_string(), "expected a number at line 3");
    let error = to_io_error(42);
    assert_eq!(error.kind(), std::io::ErrorKind::InvalidData);
    assert_eq!(error.to_string(), "42");
}
