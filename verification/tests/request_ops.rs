use mint_core::model::ModSpecification;
use mint_core::ops::{
    Applied, FetchProgress, MsgBody, OpKind, OpMessage, OpRegistry, SpecFetchProgress,
    TerminalPayload,
};
use mint_core::request::RequestCounter;

#[test]
fn counter_strictly_increases() {
    let mut c = RequestCounter::new();
    let mut last = None;
    for _ in 0..100 {
        let id = c.next();
        if let Some(prev) = last {
            assert!(id.value > prev);
        }
        last = Some(id.value);
    }
}

#[test]
fn counter_never_repeats() {
    let mut c = RequestCounter::new();
    let mut seen = Vec::new();
    for _ in 0..50 {
        let id = c.next();
        assert!(!seen.contains(&id.value));
        seen.push(id.value);
    }
}

#[test]
fn start_fills_slot_with_fresh_generation() {
    let mut reg = OpRegistry::new();
    let a = reg.start(OpKind::Resolve);
    let b = reg.start(OpKind::Lint);
    assert_ne!(a.value, b.value);
    assert_eq!(reg.current(OpKind::Resolve).unwrap().value, a.value);
    assert_eq!(reg.current(OpKind::Lint).unwrap().value, b.value);
    assert!(reg.current(OpKind::Integrate).is_none());
}

#[test]
fn abort_frees_slot_immediately() {
    let mut reg = OpRegistry::new();
    let old = reg.start(OpKind::Integrate);
    reg.abort(OpKind::Integrate);
    assert!(reg.current(OpKind::Integrate).is_none());
    // The slot is reusable at once.
    let new = reg.start(OpKind::Integrate);
    assert_ne!(old.value, new.value);
}

#[test]
fn stale_message_after_abort_is_discarded() {
    let mut reg = OpRegistry::new();
    let old = reg.start(OpKind::Resolve);
    reg.abort(OpKind::Resolve);
    let new = reg.start(OpKind::Resolve);
    // A straggler from the aborted task arrives afterwards.
    let r = reg.dispatch(OpMessage {
        kind: OpKind::Resolve,
        rid: old,
        body: MsgBody::Terminal { outcome: Ok(TerminalPayload::Nothing) },
    });
    assert_eq!(r, Applied::Stale);
    // The current handle is untouched.
    assert_eq!(reg.current(OpKind::Resolve).unwrap().value, new.value);
}

#[test]
fn superseded_generation_is_discarded() {
    // A resolve is started under generation 7, then superseded by a
    // new one under generation 8 before it completes; the old
    // generation's messages must not touch the state now tracked
    // under generation 8.
    let mut reg = OpRegistry::new();
    for _ in 0..7 {
        reg.start(OpKind::CheckUpdates);
        reg.abort(OpKind::CheckUpdates);
    }
    let gen_old = reg.start(OpKind::Resolve);
    assert_eq!(gen_old.value, 7);
    reg.abort(OpKind::Resolve); // the caller discards the old handle
    let gen_new = reg.start(OpKind::Resolve);
    assert_eq!(gen_new.value, 8);
    let stale = reg.dispatch(OpMessage {
        kind: OpKind::Resolve,
        rid: gen_old,
        body: MsgBody::Progress {
            spec: ModSpecification { url: "http://a/x.pak".to_string() },
            progress: 5,
            size: 10,
        },
    });
    assert_eq!(stale, Applied::Stale);
    let slot = reg.resolve.as_ref().unwrap();
    assert_eq!(slot.rid.value, gen_new.value);
    assert!(slot.progress.is_empty());
}

#[test]
fn progress_accumulates_per_spec() {
    let mut reg = OpRegistry::new();
    let rid = reg.start(OpKind::Integrate);
    let spec = ModSpecification { url: "http://a/x.pak".to_string() };
    let r1 = reg.dispatch(OpMessage {
        kind: OpKind::Integrate,
        rid,
        body: MsgBody::Progress { spec: spec.clone(), progress: 3, size: 10 },
    });
    assert_eq!(r1, Applied::Progressed);
    let r2 = reg.dispatch(OpMessage {
        kind: OpKind::Integrate,
        rid,
        body: MsgBody::Complete { spec: spec.clone() },
    });
    assert_eq!(r2, Applied::Progressed);
    let slot = reg.integrate.as_ref().unwrap();
    assert_eq!(slot.progress.len(), 1);
    assert_eq!(slot.progress[0].0, spec);
    assert_eq!(slot.progress[0].1, SpecFetchProgress::Complete);
}

#[test]
fn per_item_failure_does_not_abort_the_batch() {
    let mut reg = OpRegistry::new();
    let rid = reg.start(OpKind::Integrate);
    let bad = ModSpecification { url: "http://a/broken.pak".to_string() };
    let good = ModSpecification { url: "http://a/fine.pak".to_string() };
    let r1 = reg.dispatch(OpMessage {
        kind: OpKind::Integrate,
        rid,
        body: MsgBody::ItemFailed { spec: bad.clone(), error: "not found".to_string() },
    });
    assert_eq!(r1, Applied::Progressed);
    // The operation is still live; other items keep going.
    let r2 = reg.dispatch(OpMessage {
        kind: OpKind::Integrate,
        rid,
        body: MsgBody::Complete { spec: good.clone() },
    });
    assert_eq!(r2, Applied::Progressed);
    let slot = reg.integrate.as_ref().unwrap();
    assert_eq!(slot.failures, vec![(bad, "not found".to_string())]);
    assert_eq!(slot.progress, vec![(good, SpecFetchProgress::Complete)]);
    let done = reg.dispatch(OpMessage {
        kind: OpKind::Integrate,
        rid,
        body: MsgBody::Terminal { outcome: Ok(TerminalPayload::Nothing) },
    });
    assert_eq!(done, Applied::Finished(TerminalPayload::Nothing));
}

#[test]
fn terminal_success_clears_slot() {
    let mut reg = OpRegistry::new();
    let rid = reg.start(OpKind::UpdateCache);
    let r = reg.dispatch(OpMessage {
        kind: OpKind::UpdateCache,
        rid,
        body: MsgBody::Terminal { outcome: Ok(TerminalPayload::Nothing) },
    });
    assert_eq!(r, Applied::Finished(TerminalPayload::Nothing));
    assert!(reg.current(OpKind::UpdateCache).is_none());
}

#[test]
fn duplicated_terminal_message_is_stale() {
    // The task promises exactly one terminal message; if a duplicate
    // ever arrived, the cleared slot would make it stale.
    let mut reg = OpRegistry::new();
    let rid = reg.start(OpKind::Lint);
    let first = reg.dispatch(OpMessage {
        kind: OpKind::Lint,
        rid,
        body: MsgBody::Terminal { outcome: Ok(TerminalPayload::Nothing) },
    });
    assert_eq!(first, Applied::Finished(TerminalPayload::Nothing));
    let second = reg.dispatch(OpMessage {
        kind: OpKind::Lint,
        rid,
        body: MsgBody::Terminal { outcome: Ok(TerminalPayload::Nothing) },
    });
    assert_eq!(second, Applied::Stale);
}

#[test]
fn terminal_failure_carries_the_message() {
    let mut reg = OpRegistry::new();
    let rid = reg.start(OpKind::CheckUpdates);
    let r = reg.dispatch(OpMessage {
        kind: OpKind::CheckUpdates,
        rid,
        body: MsgBody::Terminal { outcome: Err("network unreachable".to_string()) },
    });
    assert_eq!(r, Applied::Failed("network unreachable".to_string()));
    assert!(reg.current(OpKind::CheckUpdates).is_none());
}

#[test]
fn fetch_progress_forgets_the_spec() {
    let spec = ModSpecification { url: "http://a/x.pak".to_string() };
    let p = SpecFetchProgress::from(FetchProgress::Progress {
        spec: spec.clone(),
        progress: 7,
        size: 9,
    });
    assert_eq!(p, SpecFetchProgress::Progress { progress: 7, size: 9 });
    let c = SpecFetchProgress::from(FetchProgress::Complete { spec });
    assert_eq!(c, SpecFetchProgress::Complete);
}
