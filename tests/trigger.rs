use psi::{MemoryTrigger, PsiKind, PsiLine, Trigger, TriggerThreshold};

#[test]
fn encodes_full_threshold_exactly() {
    let t = Trigger::new_builder().memory().full().stall(50_000).window(500_000).build();
    assert_eq!(t.generate_trigger(), b"full 50000 500000\0".to_vec());
}

#[test]
fn encodes_some_threshold_exactly() {
    let t = Trigger::new_builder()
        .kind(PsiKind::IO)
        .some()
        .threshold(TriggerThreshold { stall: 0, window: 1_000_000 })
        .build();
    assert_eq!(t.generate_trigger(), b"some 0 1000000\0".to_vec());
}

#[test]
fn builder_keeps_every_part() {
    let t = Trigger::new_builder().cpu().line(PsiLine::Full).stall(150).window(2_000_000).build();
    assert_eq!(t.kind, PsiKind::CPU);
    assert_eq!(t.line, PsiLine::Full);
    assert_eq!(t.target_file_path, "/proc/pressure/cpu");
    assert_eq!(t.threshold, TriggerThreshold { stall: 150, window: 2_000_000 });
    let io = Trigger::new_builder().io().some().stall(1).window(2).build();
    assert_eq!(io.target_file_path, "/proc/pressure/io");
    let mem = Trigger::new_builder().kind(PsiKind::Memory).some().stall(1).window(2).build();
    assert_eq!(mem.target_file_path, "/proc/pressure/memory");
}

#[test]
fn memory_triggers() {
    let t = MemoryTrigger::full(100_000, 500_000);
    assert_eq!(t, Trigger::new_builder().memory().full().stall(100_000).window(500_000).build());
    let s = MemoryTrigger::some(1, 2);
    assert_eq!(s.line, PsiLine::Partial);
    assert_eq!(s.kind, PsiKind::Memory);
    assert_eq!(s.generate_trigger(), b"some 1 2\0".to_vec());
    assert_eq!(MemoryTrigger::new(PsiLine::Full, 7, 8).generate_trigger(), b"full 7 8\0".to_vec());
}

#[test]
fn kinds_name_their_files() {
    assert_eq!(PsiKind::Memory.file_path(), "/proc/pressure/memory");
    assert_eq!(PsiKind::IO.file_path(), "/proc/pressure/io");
    assert_eq!(PsiKind::CPU.file_path(), "/proc/pressure/cpu");
    assert_eq!(PsiKind::IO.as_str(), "io");
}

#[test]
fn trigger_descriptions() {
    let t = Trigger::new_builder().memory().full().stall(100_000).window(500_000).build();
    assert_eq!(t.threshold.to_text(), "100000us stall in 500000us window");
    assert_eq!(
        t.to_text(),
        "psi memory trigger on 'full' line with threshold: 100000us stall in 500000us window"
    );
}
