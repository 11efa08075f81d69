use pixel_canvas::auth::{admin_login, login_granted, LoginForm};
use pixel_canvas::canvas::{Canvas, CanvasSize};
use pixel_canvas::config::{parse_bool, parse_u32, AppConfig, ConfigError};
use pixel_canvas::error::CanvasError;
use pixel_canvas::handlers::{
    admin_reset, admin_update_delay, admin_whitening, get_active, get_all_pixels, get_canvas_size,
    get_delay, get_pixel_region, handle_pixel_request, is_request_allowed, update_admin_active,
    update_canvas_size,
};
use pixel_canvas::limiter::RateLimiter;
use pixel_canvas::palette::{color_at, color_index};
use pixel_canvas::state::{AppState, Pixel, PixelRange, PixelRegionRequest, PixelRequest};

fn state(width: u32, height: u32, delay: u32) -> AppState {
    AppState::new(Canvas::new(CanvasSize { width, height }).unwrap(), delay, true)
}

fn request(x: u32, y: u32, color: &str) -> PixelRequest {
    PixelRequest { x, y, color: color.to_string() }
}

#[test]
fn palette_lookup() {
    assert_eq!(color_index(&"#FFFFFF".to_string()), Some(0));
    assert_eq!(color_index(&"#E50000".to_string()), Some(5));
    assert_eq!(color_index(&"#820080".to_string()), Some(15));
    assert_eq!(color_index(&"#ffffff".to_string()), None);
    assert_eq!(color_index(&"".to_string()), None);
    for i in 0..16u8 {
        assert_eq!(color_index(&color_at(i)), Some(i));
    }
}

#[test]
fn limiter_admits_first_refuses_within_cooldown() {
    let mut l = RateLimiter::new();
    let a = "10.0.0.1".to_string();
    let b = "10.0.0.2".to_string();
    assert!(l.is_allowed(&a, 1_000, 5));
    assert_eq!(l.last_seen(&a), Some(1_000));
    assert!(!l.is_allowed(&a, 1_000, 5));
    assert!(!l.is_allowed(&a, 5_999, 5));
    assert_eq!(l.last_seen(&a), Some(1_000));
    assert!(l.is_allowed(&b, 1_000, 5));
    assert!(l.is_allowed(&a, 6_000, 5));
    assert_eq!(l.last_seen(&a), Some(6_000));
    assert_eq!(l.last_seen(&"other".to_string()), None);
}

#[test]
fn limiter_clock_going_back_admits() {
    let mut l = RateLimiter::new();
    let a = "unknown".to_string();
    assert!(l.is_allowed(&a, 50_000, 30));
    assert!(l.is_allowed(&a, 10_000, 30));
    assert_eq!(l.last_seen(&a), Some(10_000));
}

#[test]
fn limiter_zero_cooldown_always_admits() {
    let mut l = RateLimiter::new();
    let a = "x".to_string();
    assert!(l.is_allowed(&a, 7, 0));
    assert!(l.is_allowed(&a, 7, 0));
}

#[test]
fn pixel_request_flow() {
    let mut s = state(4, 2, 10);
    let ip = "1.2.3.4".to_string();
    assert_eq!(handle_pixel_request(&mut s, &ip, 0, &request(1, 0, "#94E044")), Ok(()));
    assert_eq!(get_all_pixels(&s), "09000000");
    assert_eq!(
        handle_pixel_request(&mut s, &ip, 500, &request(0, 0, "#94E044")),
        Err(CanvasError::RateLimited)
    );
    assert_eq!(
        handle_pixel_request(&mut s, &ip, 10_000, &request(4, 0, "#94E044")),
        Err(CanvasError::OutOfBounds)
    );
    assert_eq!(
        handle_pixel_request(&mut s, &ip, 20_000, &request(0, 0, "#123456")),
        Err(CanvasError::InvalidColor)
    );
    assert_eq!(handle_pixel_request(&mut s, &ip, 30_000, &request(3, 1, "#820080")), Ok(()));
    assert_eq!(get_all_pixels(&s), "0900000f");
}

#[test]
fn pixel_request_refused_when_inactive() {
    let mut s = state(4, 2, 0);
    assert_eq!(update_admin_active(&mut s, true, false), Ok(()));
    assert!(!get_active(&s));
    let ip = "a".to_string();
    assert_eq!(
        handle_pixel_request(&mut s, &ip, 0, &request(0, 0, "#E50000")),
        Err(CanvasError::ServiceInactive)
    );
    assert_eq!(s.ip_timestamps.last_seen(&ip), None);
    assert_eq!(update_admin_active(&mut s, true, true), Ok(()));
    assert_eq!(handle_pixel_request(&mut s, &ip, 0, &request(0, 0, "#E50000")), Ok(()));
    assert_eq!(get_all_pixels(&s), "50000000");
}

#[test]
fn request_allowed_uses_service_delay() {
    let mut s = state(2, 2, 2);
    let ip = "h".to_string();
    assert!(is_request_allowed(&ip, &mut s, 100));
    assert!(!is_request_allowed(&ip, &mut s, 2_099));
    assert!(is_request_allowed(&ip, &mut s, 2_100));
}

#[test]
fn region_as_hex() {
    let mut s = state(4, 4, 0);
    let ip = "r".to_string();
    handle_pixel_request(&mut s, &ip, 0, &request(1, 1, "#0083C7")).unwrap();
    handle_pixel_request(&mut s, &ip, 0, &request(2, 2, "#E4E4E4")).unwrap();
    let region = PixelRegionRequest { x_start: 1, y_start: 1, x_end: 2, y_end: 2 };
    assert_eq!(get_pixel_region(&s, &region).unwrap(), "c001");
    let bad = PixelRegionRequest { x_start: 0, y_start: 0, x_end: 4, y_end: 0 };
    assert_eq!(get_pixel_region(&s, &bad), Err(CanvasError::InvalidRegion));
}

#[test]
fn privileged_operations_need_privilege() {
    let mut s = state(4, 2, 3);
    let range = PixelRange { start: Pixel { x: 1, y: 1 }, end: Pixel { x: 0, y: 0 } };
    assert_eq!(admin_whitening(&mut s, false, &range), Err(CanvasError::Unauthorized));
    assert_eq!(update_canvas_size(&mut s, false, CanvasSize { width: 8, height: 8 }), Err(CanvasError::Unauthorized));
    assert_eq!(update_admin_active(&mut s, false, false), Err(CanvasError::Unauthorized));
    assert_eq!(admin_reset(&mut s, false, CanvasSize { width: 2, height: 2 }), Err(CanvasError::Unauthorized));
    assert_eq!(admin_update_delay(&mut s, false, 9), Err(CanvasError::Unauthorized));
    assert_eq!(get_canvas_size(&s), CanvasSize { width: 4, height: 2 });
    assert_eq!(get_delay(&s), 3);
    assert!(get_active(&s));
}

#[test]
fn whitening_normalizes_corners() {
    let mut s = state(4, 2, 0);
    let ip = "w".to_string();
    for x in 0..4u32 {
        handle_pixel_request(&mut s, &ip, 0, &request(x, 0, "#222222")).unwrap();
        handle_pixel_request(&mut s, &ip, 0, &request(x, 1, "#222222")).unwrap();
    }
    let range = PixelRange { start: Pixel { x: 1, y: 1 }, end: Pixel { x: 0, y: 0 } };
    assert_eq!(admin_whitening(&mut s, true, &range), Ok(()));
    assert_eq!(get_all_pixels(&s), "00330033");
    let outside = PixelRange { start: Pixel { x: 0, y: 0 }, end: Pixel { x: 4, y: 0 } };
    assert_eq!(admin_whitening(&mut s, true, &outside), Err(CanvasError::InvalidRegion));
}

#[test]
fn canvas_size_update_grows() {
    let mut s = state(2, 2, 0);
    let ip = "g".to_string();
    handle_pixel_request(&mut s, &ip, 0, &request(1, 1, "#888888")).unwrap();
    assert_eq!(update_canvas_size(&mut s, true, CanvasSize { width: 4, height: 2 }), Ok(()));
    assert_eq!(get_canvas_size(&s), CanvasSize { width: 4, height: 2 });
    assert_eq!(get_all_pixels(&s), "00000200");
    assert_eq!(
        update_canvas_size(&mut s, true, CanvasSize { width: 2, height: 2 }),
        Err(CanvasError::ShrinkNotAllowed)
    );
    assert_eq!(
        update_canvas_size(&mut s, true, CanvasSize { width: 5, height: 2 }),
        Err(CanvasError::InvalidDimensions)
    );
}

#[test]
fn reset_blanks_canvas() {
    let mut s = state(2, 2, 0);
    let ip = "z".to_string();
    handle_pixel_request(&mut s, &ip, 0, &request(0, 0, "#888888")).unwrap();
    assert_eq!(admin_reset(&mut s, true, CanvasSize { width: 3, height: 2 }), Err(CanvasError::InvalidDimensions));
    assert_eq!(get_all_pixels(&s), "2000");
    assert_eq!(admin_reset(&mut s, true, CanvasSize { width: 2, height: 4 }), Ok(()));
    assert_eq!(get_canvas_size(&s), CanvasSize { width: 2, height: 4 });
    assert_eq!(get_all_pixels(&s), "00000000");
}

#[test]
fn delay_update_truncates_to_u32() {
    let mut s = state(2, 2, 0);
    assert_eq!(admin_update_delay(&mut s, true, 45), Ok(()));
    assert_eq!(get_delay(&s), 45);
    assert_eq!(admin_update_delay(&mut s, true, (1u64 << 32) + 7), Ok(()));
    assert_eq!(get_delay(&s), 7);
}

#[test]
fn number_and_switch_parsing() {
    assert_eq!(parse_u32(&"0".to_string()), Some(0));
    assert_eq!(parse_u32(&"1080".to_string()), Some(1080));
    assert_eq!(parse_u32(&"4294967295".to_string()), Some(u32::MAX));
    assert_eq!(parse_u32(&"4294967296".to_string()), None);
    assert_eq!(parse_u32(&"".to_string()), None);
    assert_eq!(parse_u32(&"-1".to_string()), None);
    assert_eq!(parse_u32(&"12a".to_string()), None);
    assert_eq!(parse_bool(&"true".to_string()), Some(true));
    assert_eq!(parse_bool(&"false".to_string()), Some(false));
    assert_eq!(parse_bool(&"yes".to_string()), None);
}

fn settings(pairs: &[(&str, &str)]) -> Vec<(String, String)> {
    pairs.iter().map(|(k, v)| (k.to_string(), v.to_string())).collect()
}

fn full_settings() -> Vec<(String, String)> {
    settings(&[
        ("auth.admin_hashed_password", "$2b$04$abc"),
        ("cookies.key_base64", "a2V5"),
        ("file.width", "100"),
        ("file.height", "50"),
        ("file.delay", "30"),
        ("file.file_path", "state/pixels.bin"),
        ("state.active", "true"),
    ])
}

#[test]
fn config_from_settings() {
    let c = AppConfig::from_file(&full_settings()).unwrap();
    assert_eq!(c.auth.admin_hashed_password, "$2b$04$abc");
    assert_eq!(c.cookies.key_base64, "a2V5");
    assert_eq!((c.file.width, c.file.height, c.file.delay), (100, 50, 30));
    assert_eq!(c.file.file_path, "state/pixels.bin");
    assert!(c.state.active);
}

#[test]
fn config_errors_name_the_key() {
    let mut missing = full_settings();
    missing.remove(3);
    assert_eq!(
        AppConfig::from_file(&missing).err(),
        Some(ConfigError::MissingKey("file.height".to_string()))
    );
    let mut bad = full_settings();
    bad[6].1 = "maybe".to_string();
    assert_eq!(
        AppConfig::from_file(&bad).err(),
        Some(ConfigError::InvalidValue("state.active".to_string()))
    );
    let mut first_wins = full_settings();
    first_wins.push(("file.width".to_string(), "x".to_string()));
    assert_eq!(AppConfig::from_file(&first_wins).unwrap().file.width, 100);
}

#[test]
fn admin_login_checks_bcrypt_hash() {
    let hashed = bcrypt::hash("hunter2", 4).unwrap();
    assert!(admin_login(&LoginForm { password: "hunter2".to_string() }, &hashed));
    assert!(!admin_login(&LoginForm { password: "hunter3".to_string() }, &hashed));
    assert!(!admin_login(&LoginForm { password: "hunter2".to_string() }, &"not a hash".to_string()));
    assert!(login_granted(Some(true)));
    assert!(!login_granted(Some(false)));
    assert!(!login_granted(None));
}
