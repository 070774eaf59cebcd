use psi::{PsiError, PsiLine, Trigger, TriggerRegistry};

const TEXT: &str = "some avg10=0.16 avg60=0.00 avg300=0.00 total=27787674\n\
                    full avg10=0.05 avg60=0.01 avg300=0.00 total=4242\n";

#[test]
fn events_keep_the_identity_of_their_trigger() {
    let mut reg: TriggerRegistry<&str> = TriggerRegistry::new();
    let low = Trigger::new_builder().memory().full().stall(50_000).window(500_000).build();
    let oom = Trigger::new_builder().memory().some().stall(100_000).window(500_000).build();
    let low_id = reg.register(low, "low");
    let oom_id = reg.register(oom, "oom");
    assert!(low_id != oom_id);
    assert_eq!(reg.len(), 2);

    let oom_watch = oom_id.watch_event();
    let id = reg.dispatch(oom_watch).unwrap();
    assert_eq!(id, oom_id);
    let ev = reg.complete(id, TEXT).unwrap();
    assert_eq!(ev.id, oom_id);
    assert_eq!(ev.trigger, oom);
    assert_eq!(ev.stats.line, PsiLine::Partial);
    assert_eq!(ev.stats.total, 27787674);
    assert_eq!(reg.handle(id), Some(&"oom"));

    let id = reg.dispatch(low_id.watch_event()).unwrap();
    assert_eq!(id, low_id);
    let ev = reg.complete(id, TEXT).unwrap();
    assert_eq!(ev.id, low_id);
    assert_eq!(ev.trigger, low);
    assert_eq!(ev.stats.line, PsiLine::Full);
    assert_eq!(ev.stats.total, 4242);
    assert_eq!(reg.handle(id), Some(&"low"));
}

#[test]
fn watch_asks_for_urgent_data() {
    let mut reg: TriggerRegistry<u8> = TriggerRegistry::new();
    let next = reg.next_id();
    let id = reg.register(Trigger::new_builder().io().full().stall(1).window(2).build(), 0);
    assert_eq!(next, id);
    let ev = id.watch_event();
    let events = ev.events;
    let data = ev.data;
    assert_eq!(events, epoll::Events::EPOLLPRI.bits());
    assert_eq!(data, 0);
    let second = reg.register(Trigger::new_builder().io().full().stall(1).window(2).build(), 1);
    let data = second.watch_event().data;
    assert_eq!(data, 1);
}

#[test]
fn unknown_slot_is_unregistered() {
    let mut reg: TriggerRegistry<u8> = TriggerRegistry::new();
    let id = reg.register(Trigger::new_builder().cpu().full().stall(1).window(2).build(), 0);
    let stray = epoll::Event::new(epoll::Events::EPOLLPRI, 5);
    assert!(matches!(reg.dispatch(stray), Err(PsiError::UnregisteredEvent)));
    let empty: TriggerRegistry<u8> = TriggerRegistry::new();
    assert!(matches!(empty.complete(id, TEXT), Err(PsiError::UnregisteredEvent)));
    assert!(empty.handle(id).is_none());
}

#[test]
fn error_condition_is_a_file_error() {
    let mut reg: TriggerRegistry<u8> = TriggerRegistry::new();
    let id = reg.register(Trigger::new_builder().cpu().full().stall(1).window(2).build(), 0);
    let data = id.watch_event().data;
    let err = epoll::Event::new(epoll::Events::EPOLLPRI | epoll::Events::EPOLLERR, data);
    assert!(matches!(reg.dispatch(err), Err(PsiError::PsiTriggerFileError)));
    let hup = epoll::Event::new(epoll::Events::EPOLLPRI | epoll::Events::EPOLLHUP, data);
    assert_eq!(reg.dispatch(hup).unwrap(), id);
}

#[test]
fn unreadable_pressure_is_a_parse_error() {
    let mut reg: TriggerRegistry<u8> = TriggerRegistry::new();
    let id = reg.register(Trigger::new_builder().cpu().full().stall(1).window(2).build(), 0);
    match reg.complete(id, "full avg10=0.00 avg60=0.00 avg300=0.00 total=1\n") {
        Err(PsiError::PsiParseError(psi::ParseError::MissingLine(l))) => {
            assert_eq!(l, PsiLine::Partial)
        }
        other => panic!("unexpected {:?}", other),
    }
}

#[test]
fn io_failures_are_classified() {
    let e = std::io::Error::new(std::io::ErrorKind::InvalidInput, "rejected");
    match PsiError::from_io(e, true) {
        PsiError::InvalidThreshold(inner) => assert_eq!(inner.to_string(), "rejected"),
        other => panic!("unexpected {:?}", other),
    }
    let e = std::io::Error::new(std::io::ErrorKind::NotFound, "gone");
    match PsiError::from_io(e, false) {
        PsiError::IoError(inner) => assert_eq!(inner.kind(), std::io::ErrorKind::NotFound),
        other => panic!("unexpected {:?}", other),
    }
}

#[test]
fn error_and_event_messages() {
    assert_eq!(PsiError::UnregisteredEvent.to_text(), "unregistered event triggered");
    assert_eq!(PsiError::PsiTriggerFileError.to_text(), "error on watched psi file");
    let e = PsiError::UnexpectedTriggerEvent {
        expected_kind: psi::PsiKind::CPU,
        expected_line: PsiLine::Partial,
    };
    assert_eq!(e.to_text(), "unexpected trigger event; expected cpu some");
    let p = PsiError::PsiParseError(psi::ParseError::MissingLine(PsiLine::Full));
    assert_eq!(p.to_text(), "missing line 'full'");
    let t = psi::ParseError::UnexpectedTerm(String::from("x=1"));
    assert_eq!(t.to_text(), "unexpected psi term 'x=1'");
    let io = PsiError::IoError(std::io::Error::new(std::io::ErrorKind::NotFound, "gone"));
    assert_eq!(io.to_text(), "gone");

    let mut reg: TriggerRegistry<u8> = TriggerRegistry::new();
    let trig = Trigger::new_builder().io().full().stall(5).window(10).build();
    let id = reg.register(trig, 0);
    let ev = reg.complete(id, TEXT).unwrap();
    assert_eq!(
        ev.to_text(),
        "event triggered, stats: full avg10=0.05 avg60=0.01 avg300=0.00 total=4242, \
         trigger: psi io trigger on 'full' line with threshold: 5us stall in 10us window"
    );
}
