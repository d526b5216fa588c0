use tracker_core::agnss::{
    AgnssMessage, AgnssOutcome, AgnssQueue, AgnssQueueError, AgnssState, MAX_AGNSS_MESSAGES,
    MAX_AGNSS_MESSAGE_SIZE,
};
use tracker_core::system_info::GpsState;

#[test]
fn agnss_ack_sequence() {
    let mut st = AgnssState::new();
    let msgs = vec![vec![0xA1u8; 100], vec![0xB2u8; 100]];
    assert_eq!(st.set_agnss_message_queue(&msgs), Ok(()));
    assert!(!st.should_trigger(9_999, GpsState::S2IdleGpsOff));
    assert!(st.should_trigger(10_000, GpsState::S2IdleGpsOff));
    let mut wire: Vec<u8> = Vec::new();
    let mut retries = 0;
    let first = st.start_processing(10_000, GpsState::S2IdleGpsOff).unwrap();
    wire.extend_from_slice(first.as_slice());
    st.mark_message_sent(10_000);
    let mut now = 10_000;
    loop {
        now += 200;
        // the receiver acknowledges each message
        match st.ack_next() {
            AgnssOutcome::Send(m) => {
                wire.extend_from_slice(m.as_slice());
                st.mark_message_sent(now);
            }
            AgnssOutcome::Complete => break,
        }
        if st.current_retry != 0 {
            retries += 1;
        }
    }
    assert_eq!(wire.len(), 200);
    assert_eq!(&wire[..100], &[0xA1u8; 100][..]);
    assert_eq!(&wire[100..], &[0xB2u8; 100][..]);
    assert_eq!(retries, 0);
    assert_eq!(st.finish_processing(), GpsState::S2IdleGpsOff);
    assert_eq!(st.queue.len(), 0);
    assert!(!st.should_trigger(now, GpsState::S2IdleGpsOff));
}

#[test]
fn agnss_retry_exhaustion() {
    let mut st = AgnssState::new();
    assert_eq!(st.set_agnss_message_queue(&[vec![7u8; 10]]), Ok(()));
    let mut writes = 0;
    let first = st.start_processing(20_000, GpsState::S3TrackingFixed).unwrap();
    assert_eq!(first.len(), 10);
    writes += 1;
    st.mark_message_sent(20_000);
    let mut now = 20_000;
    loop {
        now += 200;
        // no reply ever comes
        assert!(st.message_timeout(now));
        match st.retry_or_fail() {
            AgnssOutcome::Send(_) => {
                writes += 1;
                st.mark_message_sent(now);
            }
            AgnssOutcome::Complete => break,
        }
    }
    assert_eq!(writes, 3);
    assert_eq!(st.finish_processing(), GpsState::S3TrackingFixed);
}

#[test]
fn agnss_queue_bounds() {
    let mut st = AgnssState::new();
    let too_many = vec![vec![1u8]; MAX_AGNSS_MESSAGES + 1];
    assert_eq!(st.set_agnss_message_queue(&too_many), Err(AgnssQueueError::TooManyMessages));
    assert_eq!(st.queue.len(), 0);
    assert!(!st.request_pending);
    let too_large = vec![vec![1u8; 3], vec![0u8; MAX_AGNSS_MESSAGE_SIZE + 1]];
    assert_eq!(st.set_agnss_message_queue(&too_large), Err(AgnssQueueError::MessageTooLarge));
    assert_eq!(st.queue.len(), 0);
    let full = vec![vec![2u8; MAX_AGNSS_MESSAGE_SIZE]; MAX_AGNSS_MESSAGES];
    assert_eq!(st.set_agnss_message_queue(&full), Ok(()));
    assert_eq!(st.queue.len(), MAX_AGNSS_MESSAGES);
    assert!(st.request_pending);
    assert_eq!(st.set_agnss_message_queue(&[]), Ok(()));
    assert!(!st.request_pending);
    assert!(st.start_processing(20_000, GpsState::S2IdleGpsOff).is_none());
}

#[test]
fn agnss_message_and_queue() {
    assert!(AgnssMessage::from_slice(&[0u8; MAX_AGNSS_MESSAGE_SIZE + 1]).is_none());
    let m = AgnssMessage::from_slice(&[1, 2, 3]).unwrap();
    assert_eq!(m.as_slice(), &[1, 2, 3]);
    assert_eq!(AgnssMessage::empty().len(), 0);
    let mut q = AgnssQueue::new();
    assert!(q.is_empty());
    assert_eq!(q.push(&[5, 6]), Ok(()));
    assert_eq!(q.get_copy(0).unwrap().as_slice(), &[5, 6]);
    assert!(q.get_copy(1).is_none());
    q.clear();
    assert_eq!(q.len(), 0);
}

#[test]
fn agnss_timers_and_motion() {
    let mut st = AgnssState::new();
    st.set_agnss_message_queue(&[vec![1u8]]).unwrap();
    assert!(!st.should_trigger(30_000, GpsState::S5AgnssProcessing));
    st.start_processing(30_000, GpsState::S4AnalyzingStillness);
    assert!(!st.message_timeout(30_001));
    st.mark_message_sent(30_000);
    assert!(!st.message_timeout(30_000));
    assert!(st.message_timeout(30_001));
    assert!(!st.total_timeout(629_999));
    assert!(st.total_timeout(630_000));
    st.note_motion();
    assert_eq!(st.finish_processing(), GpsState::S3TrackingFixed);
}
