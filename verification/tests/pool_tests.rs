use cpi_sync::pool::WorkerWindow;

#[test]
fn window_of_width_two_never_has_more_than_two_in_flight() {
    let mut window = WorkerWindow::new(2);
    let packages = 5usize;
    let mut started = 0usize;
    let mut max_in_flight = 0usize;
    while started < packages {
        while window.must_wait() {
            window.complete();
        }
        window.launch();
        started += 1;
        assert!(window.in_flight <= 2);
        if window.in_flight > max_in_flight {
            max_in_flight = window.in_flight;
        }
    }
    while window.in_flight > 0 {
        window.complete();
    }
    assert_eq!(max_in_flight, 2);
    assert_eq!(window.completed, packages);
}

#[test]
fn window_of_width_one_serializes_tasks() {
    let mut window = WorkerWindow::new(1);
    assert!(!window.must_wait());
    window.launch();
    assert!(window.must_wait());
    window.complete();
    assert!(!window.must_wait());
    assert_eq!(window.completed, 1);
}

#[test]
fn fresh_window_has_nothing_in_flight() {
    let window = WorkerWindow::new(3);
    assert_eq!(window.in_flight, 0);
    assert_eq!(window.completed, 0);
    assert_eq!(window.width, 3);
}
