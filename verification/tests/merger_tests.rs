use merger::{plan_resume, FlushOutcome, Merger, ResumePlan, WriteOutcome};

/// A stand-in for the output file and sidecar of a single-file merge: the
/// caller appends what the engine hands out and keeps the latest record.
struct Sim {
    file: Vec<u8>,
    sidecar: Option<Vec<u8>>,
}

fn new_sim() -> Sim {
    Sim { file: Vec::new(), sidecar: None }
}

fn apply_flush(sim: &mut Sim, out: FlushOutcome) {
    for chunk in &out.chunks {
        sim.file.extend_from_slice(chunk);
    }
    if let Some(record) = out.record {
        sim.sidecar = Some(record);
    }
    if out.remove_state {
        sim.sidecar = None;
    }
}

fn submit(m: &mut Merger, sim: &mut Sim, index: usize, bytes: &[u8]) {
    match m.write(index, bytes.to_vec()) {
        WriteOutcome::Appended { bytes, record } => {
            sim.file.extend_from_slice(&bytes);
            sim.sidecar = Some(record);
        }
        WriteOutcome::Held => {}
        WriteOutcome::DirFile { .. } => panic!("file mode handed back a per-index file"),
    }
    let out = m.flush();
    apply_flush(sim, out);
}

fn segs3() -> Vec<Vec<u8>> {
    vec![vec![1, 2, 3], vec![4, 5], vec![6, 7, 8, 9]]
}

fn concat(segs: &[Vec<u8>]) -> Vec<u8> {
    let mut all = Vec::new();
    for s in segs {
        all.extend_from_slice(s);
    }
    all
}

#[test]
fn file_mode_every_submission_order_gives_ordered_bytes() {
    let segs = segs3();
    let orders: [[usize; 3]; 6] =
        [[0, 1, 2], [0, 2, 1], [1, 0, 2], [1, 2, 0], [2, 0, 1], [2, 1, 0]];
    let expected = concat(&segs);
    for order in orders {
        let mut m = Merger::new_file(3, None);
        let mut sim = new_sim();
        for &i in &order {
            submit(&mut m, &mut sim, i, &segs[i]);
        }
        assert_eq!(sim.file, expected);
        assert!(m.buffered());
        assert_eq!(m.position(), 3);
        assert!(sim.sidecar.is_none());
    }
}

#[test]
fn probe_is_false_until_the_last_gap_closes() {
    let segs = segs3();
    let mut m = Merger::new_file(3, None);
    let mut sim = new_sim();
    submit(&mut m, &mut sim, 2, &segs[2]);
    assert!(!m.buffered());
    submit(&mut m, &mut sim, 0, &segs[0]);
    assert!(!m.buffered());
    submit(&mut m, &mut sim, 1, &segs[1]);
    assert!(m.buffered());
}

#[test]
fn resumed_run_matches_uninterrupted_run() {
    let segs: Vec<Vec<u8>> =
        vec![vec![1; 5], vec![2; 3], vec![3; 7], vec![4; 2]];
    let order = [1usize, 0, 3, 2];

    let mut whole = Merger::new_file(4, None);
    let mut whole_sim = new_sim();
    for &i in &order {
        submit(&mut whole, &mut whole_sim, i, &segs[i]);
    }
    assert_eq!(whole_sim.file, concat(&segs));

    let mut first = Merger::new_file(4, None);
    let mut sim = new_sim();
    submit(&mut first, &mut sim, 1, &segs[1]);
    submit(&mut first, &mut sim, 0, &segs[0]);
    assert_eq!(first.position(), 2);
    drop(first);

    let plan = plan_resume(sim.sidecar.as_ref());
    let (pos, flushed) = match plan {
        ResumePlan::TryOpen { pos, flushed } => (pos as usize, flushed as usize),
        ResumePlan::Fresh => panic!("a valid sidecar must allow a resume"),
    };
    assert_eq!(pos, 2);
    assert_eq!(flushed, 8);
    sim.file.truncate(flushed);
    let mut resumed = Merger::new_file(4, Some((pos, flushed)));
    assert_eq!(resumed.position(), 2);
    submit(&mut resumed, &mut sim, 3, &segs[3]);
    submit(&mut resumed, &mut sim, 2, &segs[2]);

    assert_eq!(sim.file, whole_sim.file);
    assert!(resumed.buffered());
    assert!(sim.sidecar.is_none());
}

#[test]
fn wrong_length_sidecar_means_a_fresh_start() {
    for len in [0usize, 15, 17, 32] {
        let stale = vec![0xabu8; len];
        assert!(matches!(plan_resume(Some(&stale)), ResumePlan::Fresh));
        assert!(merger::parse_state(&stale).is_none());
    }
    let zero_cursor = merger::encode_state(0, 99);
    assert!(matches!(plan_resume(Some(&zero_cursor)), ResumePlan::Fresh));
    assert!(matches!(plan_resume(None), ResumePlan::Fresh));

    let m = Merger::new_file(3, None);
    assert_eq!(m.position(), 0);
    assert_eq!(m.stored(), 0);
    assert!(!m.buffered());
}

#[test]
fn estimate_is_zero_before_any_submission() {
    let m = Merger::new_file(5, None);
    assert_eq!(m.estimate(), 0);
    let d = Merger::new_directory(5);
    assert_eq!(d.estimate(), 0);
}

#[test]
fn estimate_of_uniform_segments_is_size_times_count() {
    let mut m = Merger::new_file(3, None);
    let mut sim = new_sim();
    submit(&mut m, &mut sim, 1, &[9u8; 7]);
    assert_eq!(m.estimate(), 21);
    submit(&mut m, &mut sim, 0, &[8u8; 7]);
    assert_eq!(m.estimate(), 21);
    submit(&mut m, &mut sim, 2, &[7u8; 7]);
    assert_eq!(m.estimate(), 21);
}

#[test]
fn estimate_truncates_the_average() {
    let mut m = Merger::new_file(3, None);
    let mut sim = new_sim();
    submit(&mut m, &mut sim, 0, &[1u8; 1]);
    submit(&mut m, &mut sim, 1, &[2u8; 2]);
    assert_eq!(m.stored(), 3);
    assert_eq!(m.estimate(), 3);
}

#[test]
fn directory_mode_stores_each_index_independently() {
    let segs = segs3();
    let mut m = Merger::new_directory(3);
    let mut slots: Vec<Option<Vec<u8>>> = vec![None, None, None];
    for &i in &[2usize, 0, 1] {
        match m.write(i, segs[i].clone()) {
            WriteOutcome::DirFile { index, bytes } => {
                slots[index] = Some(bytes);
            }
            _ => panic!("directory mode must hand back a per-index file"),
        }
        let out = m.flush();
        assert!(out.chunks.is_empty());
        assert!(out.record.is_none());
        assert!(!out.remove_state);
    }
    for i in 0..3 {
        assert_eq!(slots[i].as_ref().unwrap(), &segs[i]);
    }
    assert_eq!(m.position(), 3);
    assert_eq!(m.stored(), 9);
    assert!(m.buffered());
}

#[test]
fn three_segments_out_of_order_complete_exactly() {
    let segs: Vec<Vec<u8>> = vec![vec![1; 10], vec![2; 20], vec![3; 15]];
    let mut m = Merger::new_file(3, None);
    let mut sim = new_sim();
    submit(&mut m, &mut sim, 1, &segs[1]);
    assert_eq!(m.position(), 0);
    assert_eq!(m.stored(), 20);
    submit(&mut m, &mut sim, 0, &segs[0]);
    assert_eq!(m.position(), 2);
    submit(&mut m, &mut sim, 2, &segs[2]);
    assert_eq!(sim.file.len(), 45);
    assert_eq!(sim.file, concat(&segs));
    assert_eq!(m.position(), 3);
    assert!(m.buffered());
    assert!(sim.sidecar.is_none());
    assert_eq!(m.stored(), 45);
}

#[test]
fn resubmitting_index_zero_out_of_turn_appends_at_the_cursor() {
    let mut m = Merger::new_file(2, None);
    let mut sim = new_sim();
    submit(&mut m, &mut sim, 0, &[5u8, 6u8]);
    submit(&mut m, &mut sim, 0, &[5u8, 6u8]);
    assert_eq!(m.position(), 2);
    assert_eq!(sim.file, vec![5u8, 6u8, 5u8, 6u8]);
}

#[test]
fn state_record_round_trips() {
    let record = merger::encode_state(3, 45);
    assert_eq!(record.len(), 16);
    assert_eq!(merger::parse_state(&record), Some((3, 45)));
    let record = merger::encode_state(u64::MAX, 1 << 40);
    assert_eq!(merger::parse_state(&record), Some((u64::MAX, 1 << 40)));
}

#[test]
fn state_record_is_big_endian() {
    let record = merger::encode_state(1, 258);
    assert_eq!(
        record,
        vec![0, 0, 0, 0, 0, 0, 0, 1, 0, 0, 0, 0, 0, 0, 1, 2]
    );
}
