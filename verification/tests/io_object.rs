use meister::recording_pool::recording_task::io_object::{filter_arguments, route_for, Route};

#[test]
fn the_filter_is_started_with_its_fixed_arguments() {
    assert_eq!(
        filter_arguments(),
        vec!["-x", "18/38/39", "-n", "-1", "-a", "13", "-b", "5", "-c", "1", "-u", "1", "-d", "13"]
    );
    assert_eq!(filter_arguments().join(" "), "-x 18/38/39 -n -1 -a 13 -b 5 -c 1 -u 1 -d 13");
}

#[test]
fn a_filter_that_does_not_start_is_bypassed() {
    assert_eq!(route_for(true), Route::Filtered);
    assert_eq!(route_for(false), Route::Direct);
}
