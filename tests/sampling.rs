use orbital_cloud::orbital::QuantumNumbers;
use orbital_cloud::sampling::{progress_percent, SampleRequest, SamplingRun};

fn request(sample_size: usize) -> SampleRequest {
    SampleRequest { quantum_numbers: QuantumNumbers { n: 1, l: 0, ml: 0 }, sample_size }
}

#[test]
fn empty_request_is_complete_at_once() {
    let run: SamplingRun<u32> = SamplingRun::new(request(0));
    assert!(run.is_complete());
    assert_eq!(run.len(), 0);
    assert!(run.finish().is_empty());
}

#[test]
fn run_collects_exactly_the_requested_samples() {
    let mut run = SamplingRun::new(request(3));
    let mut progress = Vec::new();
    let mut next = 10;
    while !run.is_complete() {
        progress.push(run.accept(next));
        next += 1;
    }
    assert_eq!(progress, vec![33, 66, 100]);
    assert_eq!(run.sample_size(), 3);
    assert_eq!(run.finish(), vec![10, 11, 12]);
}

#[test]
fn progress_is_nondecreasing_and_ends_at_hundred() {
    let size = 500;
    let mut run = SamplingRun::new(request(size));
    let mut last = 0;
    for i in 0..size {
        let pct = run.accept(i);
        assert!(pct >= last);
        last = pct;
    }
    assert_eq!(last, 100);
    assert_eq!(run.finish().len(), size);
}

#[test]
fn progress_percent_values() {
    assert_eq!(progress_percent(0, 5), 0);
    assert_eq!(progress_percent(1, 3), 33);
    assert_eq!(progress_percent(7, 7), 100);
    assert_eq!(progress_percent(usize::MAX, usize::MAX), 100);
    assert_eq!(progress_percent(usize::MAX / 2, usize::MAX), 49);
}
