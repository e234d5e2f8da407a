use starcoin::perf_timer::PerfTimer;

#[test]
fn timer_keeps_its_name_and_start() {
    let before = std::time::Instant::now();
    let timer = PerfTimer::new("apply_block");
    assert_eq!(timer.name(), "apply_block");
    assert!(timer.start() >= before);
    assert!(timer.start() <= std::time::Instant::now());
}

#[test]
fn timer_started_at_a_reading_keeps_it() {
    let reading = std::time::Instant::now();
    let timer = PerfTimer::started_at("execute", reading);
    assert_eq!(timer.name(), "execute");
    assert!(timer.start() == reading);
}
