use engine::app_control::{AppControl, AppEvent};

#[test]
fn app_events_drive_the_loop() {
    let mut c = AppControl::new();
    assert!(c.running);
    assert!(!c.show_debug_window);
    assert_eq!(c.handle_input(AppEvent::DebugKeyDown), None);
    assert!(c.show_debug_window);
    assert_eq!(c.handle_input(AppEvent::DebugKeyDown), None);
    assert!(!c.show_debug_window);
    assert_eq!(c.handle_input(AppEvent::WindowResized { w: 800, h: 600 }), Some((800, 600)));
    assert_eq!(c.handle_input(AppEvent::WindowResized { w: -1, h: 600 }), Some((u32::MAX, 600)));
    assert_eq!(c.handle_input(AppEvent::Other), None);
    assert!(c.running);
    assert_eq!(c.handle_input(AppEvent::Quit), None);
    assert!(!c.running);
    let mut d = AppControl::new();
    d.exit();
    assert_eq!(d, AppControl { running: false, show_debug_window: false });
}
