use rgb9e5_ktx2::batch::{validate_batch, BatchReport, ValidationError, EXIT_FAILED, EXIT_INVALID, EXIT_SUCCESS};
use rgb9e5_ktx2::encoder::encode;
use rgb9e5_ktx2::image::DecodedImage;
use rgb9e5_ktx2::ktx2::{write_container, WriteError};
use rgb9e5_ktx2::scheduler::{
    Action, ConversionJob, Event, ImageStatus, JobError, JobState, Phase, Scheduler,
};

fn image(value: f32) -> DecodedImage {
    let sample = value.to_bits();
    DecodedImage::new(1, 1, vec![vec![sample, sample, sample, sample]]).unwrap()
}

fn file_of(image: &DecodedImage) -> Vec<u8> {
    write_container(&encode(image)).unwrap()
}

fn three_jobs() -> Scheduler {
    let mut scheduler = Scheduler::new();
    assert_eq!(scheduler.submit("a.exr".to_string(), "a.ktx2".to_string(), 10), 0);
    assert_eq!(scheduler.submit("b.exr".to_string(), "b.ktx2".to_string(), 11), 1);
    assert_eq!(scheduler.submit("c.exr".to_string(), "c.ktx2".to_string(), 12), 2);
    scheduler
}

fn state_of(scheduler: &Scheduler, job: usize) -> JobState {
    scheduler.job(job).unwrap().state.clone()
}

#[test]
fn empty_scheduler_finishes_on_the_first_tick() {
    let mut scheduler = Scheduler::new();
    assert_eq!(scheduler.job_count(), 0);
    assert!(scheduler.is_complete());
    assert_eq!(scheduler.step(Event::Tick), Some(Action::Finish));
    assert_eq!(scheduler.phase(), Phase::Idle);
    assert_eq!(scheduler.step(Event::Tick), Some(Action::Finish));
}

#[test]
fn submit_creates_pending_jobs_in_order() {
    let scheduler = three_jobs();
    assert_eq!(scheduler.job_count(), 3);
    assert_eq!(scheduler.pending_jobs(), 3);
    assert!(!scheduler.is_complete());
    assert_eq!(
        scheduler.job(1),
        Some(&ConversionJob {
            source_path: "b.exr".to_string(),
            destination_path: "b.ktx2".to_string(),
            load_handle: 11,
            state: JobState::Pending,
        })
    );
    assert_eq!(scheduler.job(3), None);
}

#[test]
fn failed_job_does_not_disturb_its_neighbours() {
    let mut scheduler = three_jobs();
    let first = image(1.0);
    let third = image(0.25);
    assert_eq!(scheduler.step(Event::Tick), Some(Action::Poll { job: 0, handle: 10 }));
    assert_eq!(
        scheduler.step(Event::Polled(ImageStatus::Ready(first.clone()))),
        Some(Action::Write { job: 0, bytes: file_of(&first) })
    );
    assert_eq!(
        scheduler.step(Event::Written(Ok(()))),
        Some(Action::Poll { job: 1, handle: 11 })
    );
    assert_eq!(
        scheduler.step(Event::Polled(ImageStatus::Failed("no such file".to_string()))),
        Some(Action::Poll { job: 2, handle: 12 })
    );
    assert_eq!(
        scheduler.step(Event::Polled(ImageStatus::Ready(third.clone()))),
        Some(Action::Write { job: 2, bytes: file_of(&third) })
    );
    assert_eq!(scheduler.step(Event::Written(Ok(()))), Some(Action::Finish));
    assert_eq!(state_of(&scheduler, 0), JobState::Converted);
    assert_eq!(
        state_of(&scheduler, 1),
        JobState::Failed(JobError::Decode("no such file".to_string()))
    );
    assert_eq!(state_of(&scheduler, 2), JobState::Converted);
    assert!(scheduler.is_complete());
    let report = scheduler.report();
    assert_eq!(report, BatchReport { converted: 2, failed: vec![1] });
    assert!(!report.succeeded());
    assert_eq!(report.exit_code(), EXIT_FAILED);
}

#[test]
fn written_file_is_the_container_of_the_encoded_image() {
    let mut scheduler = Scheduler::new();
    scheduler.submit("in".to_string(), "out".to_string(), 0);
    scheduler.step(Event::Tick);
    let action = scheduler.step(Event::Polled(ImageStatus::Ready(image(1.0))));
    let mut expected: Vec<u8> =
        vec![0xAB, 0x4B, 0x54, 0x58, 0x20, 0x32, 0x30, 0xBB, 0x0D, 0x0A, 0x1A, 0x0A];
    for field in [123u32, 4, 1, 1, 1, 1, 1, 1, 0] {
        expected.extend_from_slice(&field.to_le_bytes());
    }
    expected.extend_from_slice(&[104, 0, 0, 0, 4, 0, 0, 0]);
    expected.extend_from_slice(&[0u8; 24]);
    for field in [108u64, 4, 4] {
        expected.extend_from_slice(&field.to_le_bytes());
    }
    expected.extend_from_slice(&[4, 0, 0, 0]);
    expected.extend_from_slice(&[0x00, 0x01, 0x02, 0x84]);
    assert_eq!(action, Some(Action::Write { job: 0, bytes: expected }));
    assert_eq!(scheduler.phase(), Phase::Writing(0));
    assert_eq!(state_of(&scheduler, 0), JobState::Pending);
}

#[test]
fn job_that_is_not_ready_is_polled_again_next_tick() {
    let mut scheduler = Scheduler::new();
    scheduler.submit("slow".to_string(), "slow.ktx2".to_string(), 5);
    scheduler.submit("fast".to_string(), "fast.ktx2".to_string(), 6);
    assert_eq!(scheduler.step(Event::Tick), Some(Action::Poll { job: 0, handle: 5 }));
    assert_eq!(
        scheduler.step(Event::Polled(ImageStatus::NotReady)),
        Some(Action::Poll { job: 1, handle: 6 })
    );
    assert!(matches!(
        scheduler.step(Event::Polled(ImageStatus::Ready(image(2.0)))),
        Some(Action::Write { job: 1, .. })
    ));
    // the tick ends with job 0 still pending
    assert_eq!(scheduler.step(Event::Written(Ok(()))), Some(Action::Wait));
    assert!(!scheduler.is_complete());
    assert_eq!(scheduler.pending_jobs(), 1);
    assert_eq!(scheduler.phase(), Phase::Idle);
    // the next tick polls job 0 only
    assert_eq!(scheduler.step(Event::Tick), Some(Action::Poll { job: 0, handle: 5 }));
    assert_eq!(scheduler.step(Event::Polled(ImageStatus::NotReady)), Some(Action::Wait));
    assert_eq!(scheduler.step(Event::Tick), Some(Action::Poll { job: 0, handle: 5 }));
    assert!(matches!(
        scheduler.step(Event::Polled(ImageStatus::Ready(image(3.0)))),
        Some(Action::Write { job: 0, .. })
    ));
    assert_eq!(scheduler.step(Event::Written(Ok(()))), Some(Action::Finish));
    assert!(scheduler.is_complete());
    assert_eq!(scheduler.report(), BatchReport { converted: 2, failed: vec![] });
    assert!(scheduler.report().succeeded());
    assert_eq!(scheduler.report().exit_code(), EXIT_SUCCESS);
}

#[test]
fn completion_waits_for_every_job() {
    let mut scheduler = three_jobs();
    let mut ticks = 0;
    let mut action = scheduler.step(Event::Tick).unwrap();
    loop {
        let complete = scheduler.is_complete();
        assert_eq!(action == Action::Finish, complete);
        action = match action {
            // job 2 needs three ticks, the others are ready at once
            Action::Poll { job: 2, .. } if ticks < 2 => {
                scheduler.step(Event::Polled(ImageStatus::NotReady)).unwrap()
            },
            Action::Poll { .. } => {
                scheduler.step(Event::Polled(ImageStatus::Ready(image(1.0)))).unwrap()
            },
            Action::Write { .. } => scheduler.step(Event::Written(Ok(()))).unwrap(),
            Action::Wait => {
                ticks += 1;
                scheduler.step(Event::Tick).unwrap()
            },
            Action::Finish => break,
        };
    }
    assert_eq!(ticks, 2);
    assert_eq!(scheduler.pending_jobs(), 0);
    assert_eq!(scheduler.report(), BatchReport { converted: 3, failed: vec![] });
}

#[test]
fn write_failure_fails_the_job_only() {
    let mut scheduler = Scheduler::new();
    scheduler.submit("a".to_string(), "/missing/a.ktx2".to_string(), 1);
    scheduler.submit("b".to_string(), "b.ktx2".to_string(), 2);
    scheduler.step(Event::Tick);
    scheduler.step(Event::Polled(ImageStatus::Ready(image(1.0))));
    assert_eq!(
        scheduler.step(Event::Written(Err(WriteError::IoFailure("no such directory".to_string())))),
        Some(Action::Poll { job: 1, handle: 2 })
    );
    assert_eq!(
        state_of(&scheduler, 0),
        JobState::Failed(JobError::Write(WriteError::IoFailure("no such directory".to_string())))
    );
    assert_eq!(state_of(&scheduler, 1), JobState::Pending);
    scheduler.step(Event::Polled(ImageStatus::Ready(image(1.0))));
    assert_eq!(scheduler.step(Event::Written(Ok(()))), Some(Action::Finish));
    assert_eq!(scheduler.report(), BatchReport { converted: 1, failed: vec![0] });
}

#[test]
fn terminal_jobs_are_never_polled_again() {
    let mut scheduler = three_jobs();
    scheduler.step(Event::Tick);
    scheduler.step(Event::Polled(ImageStatus::Failed("broken".to_string())));
    scheduler.step(Event::Polled(ImageStatus::NotReady));
    assert_eq!(scheduler.step(Event::Polled(ImageStatus::NotReady)), Some(Action::Wait));
    // job 0 has failed: the next tick starts with job 1
    assert_eq!(scheduler.step(Event::Tick), Some(Action::Poll { job: 1, handle: 11 }));
    assert_eq!(state_of(&scheduler, 0), JobState::Failed(JobError::Decode("broken".to_string())));
}

#[test]
fn events_out_of_turn_are_refused() {
    let mut scheduler = three_jobs();
    assert_eq!(scheduler.step(Event::Polled(ImageStatus::NotReady)), None);
    assert_eq!(scheduler.step(Event::Written(Ok(()))), None);
    assert_eq!(scheduler.phase(), Phase::Idle);
    assert_eq!(scheduler.step(Event::Tick), Some(Action::Poll { job: 0, handle: 10 }));
    assert_eq!(scheduler.step(Event::Tick), None);
    assert_eq!(scheduler.step(Event::Written(Ok(()))), None);
    assert_eq!(scheduler.phase(), Phase::Polling(0));
    scheduler.step(Event::Polled(ImageStatus::Ready(image(1.0))));
    assert_eq!(scheduler.step(Event::Tick), None);
    assert_eq!(scheduler.step(Event::Polled(ImageStatus::NotReady)), None);
    assert_eq!(scheduler.phase(), Phase::Writing(0));
    assert_eq!(scheduler.pending_jobs(), 3);
    assert_eq!(state_of(&scheduler, 0), JobState::Pending);
}

#[test]
fn all_jobs_failing_still_completes() {
    let mut scheduler = three_jobs();
    scheduler.step(Event::Tick);
    scheduler.step(Event::Polled(ImageStatus::Failed("x".to_string())));
    scheduler.step(Event::Polled(ImageStatus::Failed("y".to_string())));
    assert_eq!(
        scheduler.step(Event::Polled(ImageStatus::Failed("z".to_string()))),
        Some(Action::Finish)
    );
    let report = scheduler.report();
    assert_eq!(report, BatchReport { converted: 0, failed: vec![0, 1, 2] });
    assert_eq!(report.exit_code(), 1);
}

#[test]
fn job_state_knows_whether_it_is_pending() {
    assert!(JobState::Pending.is_pending());
    assert!(!JobState::Converted.is_pending());
    assert!(!JobState::Failed(JobError::Write(WriteError::TooLarge)).is_pending());
}

#[test]
fn validation_refuses_empty_and_unequal_lists() {
    let none: Vec<String> = vec![];
    let one = vec!["a".to_string()];
    let two = vec!["a".to_string(), "b".to_string()];
    assert_eq!(validate_batch(&none, &one), Err(ValidationError::NoInputs));
    assert_eq!(validate_batch(&none, &none), Err(ValidationError::NoInputs));
    assert_eq!(validate_batch(&one, &none), Err(ValidationError::NoOutputs));
    assert_eq!(validate_batch(&one, &two), Err(ValidationError::LengthMismatch));
    assert_eq!(validate_batch(&two, &one), Err(ValidationError::LengthMismatch));
    assert_eq!(EXIT_INVALID, 1);
}

#[test]
fn validation_errors_say_what_is_wrong() {
    assert_eq!(ValidationError::NoInputs.message(), "No input paths provided");
    assert_eq!(ValidationError::NoOutputs.message(), "No output paths provided");
    assert_eq!(
        ValidationError::LengthMismatch.message(),
        "Input and output path lengths don't match"
    );
}

#[test]
fn validation_accepts_equal_non_empty_lists() {
    let one = vec!["a".to_string()];
    let two = vec!["a".to_string(), "b".to_string()];
    assert_eq!(validate_batch(&one, &one), Ok(()));
    assert_eq!(validate_batch(&two, &two), Ok(()));
}

#[test]
fn refused_batch_creates_no_job() {
    let sources = vec!["a".to_string(), "b".to_string()];
    let destinations = vec!["a.ktx2".to_string()];
    let mut scheduler = Scheduler::new();
    if validate_batch(&sources, &destinations).is_ok() {
        for (handle, (source, destination)) in sources.iter().zip(destinations.iter()).enumerate() {
            scheduler.submit(source.clone(), destination.clone(), handle as u64);
        }
    }
    assert_eq!(scheduler.job_count(), 0);
    assert_eq!(scheduler.report(), BatchReport { converted: 0, failed: vec![] });
}
