use cube_fountain::graphics::{Attribute, DrawCall, Graphics, LightCube, Lighting};
use cube_fountain::handler::{Handler, FPS, INTERVAL};
use cube_fountain::shader::{shader_path, ShaderError};
use cube_fountain::util::{find_nul, find_sdl_gl_driver, get_log, LogError};

#[test]
fn a_mesh_has_a_corner_for_every_six_numbers() {
    let lit = Graphics::<Lighting>::new(3, 4, 216);
    assert_eq!((lit.vbo, lit.vao, lit.vertex_count), (3, 4, 36));
    let marker = Graphics::<LightCube>::new(5, 6, 216);
    assert_eq!((marker.vbo, marker.vao, marker.vertex_count), (5, 6, 36));
    assert_eq!(Graphics::<Lighting>::new(0, 0, 17).vertex_count, 2);
    assert_eq!(Graphics::<LightCube>::new(0, 0, 5).vertex_count, 0);
    assert_eq!(lit.draw(), DrawCall { vao: 4, first: 0, count: 36 });
    assert_eq!(marker.draw(), DrawCall { vao: 6, first: 0, count: 36 });
}

#[test]
fn a_lit_mesh_binds_places_and_normals_a_marker_only_places() {
    let place = Attribute { index: 0, components: 3, stride: 24, offset: 0 };
    let normal = Attribute { index: 1, components: 3, stride: 24, offset: 12 };
    assert_eq!(Graphics::<Lighting>::attributes(), vec![place, normal]);
    assert_eq!(Graphics::<LightCube>::attributes(), vec![place]);
}

#[test]
fn frames_are_paced_at_a_fixed_interval() {
    assert_eq!(FPS, 275);
    assert_eq!(INTERVAL, 1_000_000_000 / 275);
    let mut handler = Handler::new(1_000);
    assert_eq!(handler, Handler { sleep_until: 1_000, delta_counter: 1_000 });
    assert_eq!(handler.sleep(1_000), 0);
    assert_eq!(handler.sleep(2_000), 0);
    handler.wake(2_000);
    assert_eq!(handler.sleep_until, 2_000 + 3_636_363);
    assert_eq!(handler.sleep(3_000), 3_635_363);
    assert_eq!(handler.sleep(2_000 + 3_636_363), 0);
    assert_eq!(handler.sleep(u64::MAX), 0);
    handler.wake(u64::MAX - 5);
    assert_eq!(handler.sleep_until, u64::MAX);
    assert_eq!(handler.delta_counter, 1_000);
}

#[test]
fn the_time_since_the_last_question() {
    let mut handler = Handler::new(1_000);
    assert_eq!(handler.delta(4_500), 3_500);
    assert_eq!(handler.delta(4_500), 0);
    assert_eq!(handler.delta(4_000), 0);
    assert_eq!(handler.delta_counter, 4_000);
    assert_eq!(handler.delta(5_000), 1_000);
    assert_eq!(handler.sleep_until, 1_000);
    assert_eq!(Handler::seconds(16_666_667), 16_666);
    assert_eq!(Handler::seconds(999), 0);
    assert_eq!(Handler::seconds(u64::MAX), 18_446_744_073_709_551);
}

#[test]
fn shader_sources_lie_in_one_directory() {
    assert_eq!(shader_path("lighting.vs"), "shaders/lighting.vs");
    assert_eq!(shader_path(""), "shaders/");
}

#[test]
fn a_status_of_zero_is_a_failure_with_the_log_as_its_report() {
    assert!(ShaderError::check(1, String::from("ignored")).is_ok());
    assert!(ShaderError::check(-1, String::new()).is_ok());
    let error = ShaderError::check(0, String::from("0:1: syntax error")).unwrap_err();
    assert_eq!(error.msg, "0:1: syntax error");
    assert_eq!(error.message(), "0:1: syntax error");
}

#[test]
fn the_first_driver_called_opengl_is_found() {
    let names = |list: &[&str]| list.iter().map(|s| s.to_string()).collect::<Vec<String>>();
    assert_eq!(find_sdl_gl_driver(&names(&["software", "opengl", "opengles2", "opengl"])), Some(1));
    assert_eq!(find_sdl_gl_driver(&names(&["opengl"])), Some(0));
    assert_eq!(find_sdl_gl_driver(&names(&["opengles2", "OpenGL", "opengl "])), None);
    assert_eq!(find_sdl_gl_driver(&names(&[])), None);
}

#[test]
fn a_log_is_the_bytes_before_the_closing_zero() {
    let mut buf = [0u8; 512];
    buf[..5].copy_from_slice(b"error");
    assert_eq!(get_log(&buf, 5), Ok(String::from("error")));
    assert_eq!(get_log(&buf, 0), Err(LogError::NotNulTerminated));
    assert_eq!(get_log(&buf, 7), Err(LogError::InteriorNul { position: 5 }));
    assert_eq!(get_log(&buf, 4), Err(LogError::NotNulTerminated));
    assert_eq!(get_log(&[0], 0), Ok(String::new()));
    assert_eq!(get_log(&[7, 0, 9], 1), Ok(String::from("\u{7}")));
    assert_eq!(get_log(&[255, 0], 1), Err(LogError::InvalidUtf8));
    assert_eq!(get_log(&[0xc3, 0xa9, 0], 2), Ok(String::from("\u{e9}")));
    assert_eq!(get_log(&[0xc3, 0, 0], 1), Err(LogError::InvalidUtf8));
    assert_eq!(get_log(&[0xc3, 0, 0], 2), Err(LogError::InteriorNul { position: 1 }));
    assert_eq!(get_log(&[7, 8, 9], 2), Err(LogError::NotNulTerminated));
    assert_eq!(find_nul(&buf, 512), Some(5));
    assert_eq!(find_nul(&buf, 5), None);
    assert_eq!(find_nul(&buf, 0), None);
}
