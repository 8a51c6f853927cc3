use metrics_exporter_plotly::scheduler::{Action, Event, Phase, Scheduler};

#[test]
fn ticks_scrape_until_stop() {
    let mut s = Scheduler::new();
    assert_eq!(s.on_event(Event::Tick), Action::Scrape);
    assert_eq!(s.on_event(Event::Tick), Action::Scrape);
    assert_eq!(s.phase(), Phase::Running);
    assert_eq!(s.on_event(Event::Stop), Action::FinalScrape);
    assert_eq!(s.phase(), Phase::Stopped);
}

#[test]
fn nothing_scrapes_after_stop() {
    let mut s = Scheduler::new();
    assert_eq!(s.on_event(Event::Stop), Action::FinalScrape);
    assert_eq!(s.on_event(Event::Stop), Action::Ignore);
    assert_eq!(s.on_event(Event::Tick), Action::Ignore);
    assert_eq!(s.phase(), Phase::Stopped);
}
