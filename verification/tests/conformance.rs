use nexus_store::conformance::{resume_cycle_step, resume_cycles_agree, ResumeStep};

fn rows(items: &[(u64, &[u8])]) -> Vec<(u64, Vec<u8>)> {
    items.iter().map(|(p, b)| (*p, b.to_vec())).collect()
}

#[test]
fn resume_cycle_takes_up_to_three_then_reopens_at_the_last() {
    assert!(matches!(resume_cycle_step(0, false, None, Some(7)), ResumeStep::Take));
    assert!(matches!(resume_cycle_step(1, true, Some(7), Some(8)), ResumeStep::Take));
    assert!(matches!(resume_cycle_step(2, true, Some(8), Some(9)), ResumeStep::Reopen(Some(9))));
    assert!(matches!(resume_cycle_step(1, true, Some(7), None), ResumeStep::Reopen(Some(7))));
    assert!(matches!(resume_cycle_step(0, false, Some(9), None), ResumeStep::Stop));
}

#[test]
fn resume_cycles_agree_needs_same_payloads_at_increasing_positions() {
    let full = rows(&[(1, b"a1"), (2, b"b1"), (5, b"a2")]);
    assert!(resume_cycles_agree(&full, &rows(&[(1, b"a1"), (2, b"b1"), (5, b"a2")])));
    assert!(!resume_cycles_agree(&full, &rows(&[(1, b"a1"), (2, b"b1")])));
    assert!(!resume_cycles_agree(&full, &rows(&[(1, b"a1"), (2, b"b1"), (2, b"b1"), (5, b"a2")])));
    assert!(!resume_cycles_agree(&full, &rows(&[(1, b"a1"), (5, b"a2"), (2, b"b1")])));
    assert!(!resume_cycles_agree(&full, &rows(&[(1, b"a1"), (3, b"b1"), (3, b"a2")])));
}

/// Drive the resume cycles over a log whose read strictly after a
/// checkpoint yields the rows past it, in order.
fn gather(log: &[(u64, Vec<u8>)]) -> Vec<(u64, Vec<u8>)> {
    let mut acc = Vec::new();
    let mut checkpoint: Option<u64> = None;
    loop {
        let from = checkpoint;
        let mut cycle = log.iter().filter(move |(p, _)| from.map_or(true, |c| *p > c));
        let mut taken: u32 = 0;
        let mut advanced = false;
        let reopen = loop {
            let item = cycle.next();
            match resume_cycle_step(taken, advanced, checkpoint, item.map(|(p, _)| *p)) {
                ResumeStep::Take => {
                    let (p, b) = item.expect("an item");
                    acc.push((*p, b.clone()));
                    checkpoint = Some(*p);
                    advanced = true;
                    taken += 1;
                }
                ResumeStep::Reopen(at) => {
                    if let Some((p, b)) = item {
                        acc.push((*p, b.clone()));
                    }
                    break Some(at);
                }
                ResumeStep::Stop => break None,
            }
        };
        match reopen {
            Some(at) => checkpoint = at,
            None => break,
        }
    }
    acc
}

#[test]
fn resume_cycles_rebuild_ten_interleaved_events() {
    let log: Vec<(u64, Vec<u8>)> = (0..10u64)
        .map(|i| (10 + 3 * i, format!("{}{}", if i % 2 == 0 { 'a' } else { 'b' }, i / 2 + 1).into_bytes()))
        .collect();
    let gathered = gather(&log);
    assert_eq!(gathered.len(), 10);
    assert!(resume_cycles_agree(&log, &gathered));
}
