use fuzzy_finder::mailbox::Event;
use fuzzy_finder::mailbox::Mailbox;
use fuzzy_finder::mailbox::Payload;

#[test]
fn coalesces_same_kind_to_latest_payload() {
    let mut mb = Mailbox::new();
    mb.set(Event::ActAddChar, Payload::Ch('a'));
    mb.set(Event::ActAddChar, Payload::Ch('b'));
    let batch = mb.take();
    assert_eq!(batch.len(), 1);
    match &batch[0] {
        (Event::ActAddChar, Payload::Ch(c)) => assert_eq!(*c, 'b'),
        _ => panic!("unexpected batch entry"),
    }
    // a subsequent wait would block: the mailbox is empty
    assert!(mb.is_empty());
}

#[test]
fn distinct_kinds_batch_together() {
    let mut mb = Mailbox::new();
    mb.set(Event::ReaderNewItem, Payload::Flag(true));
    mb.set(Event::Resize, Payload::Flag(true));
    mb.set(Event::ReaderNewItem, Payload::Flag(false));
    let batch = mb.take();
    assert_eq!(batch.len(), 2);
    let mut saw_reader = false;
    let mut saw_resize = false;
    for (kind, payload) in &batch {
        match kind {
            Event::ReaderNewItem => {
                assert!(!saw_reader);
                saw_reader = true;
                match payload {
                    Payload::Flag(f) => assert!(!*f),
                    _ => panic!("wrong payload kind"),
                }
            }
            Event::Resize => {
                assert!(!saw_resize);
                saw_resize = true;
            }
            _ => panic!("unexpected kind"),
        }
    }
    assert!(saw_reader && saw_resize);
    assert!(mb.is_empty());
}

#[test]
fn empty_mailbox_has_empty_batch() {
    let mut mb = Mailbox::new();
    assert!(mb.is_empty());
    let batch = mb.take();
    assert_eq!(batch.len(), 0);
}

#[test]
fn progress_counts_payload_round_trip() {
    let mut mb = Mailbox::new();
    mb.set(Event::MatcherUpdateProcess, Payload::Counts(3, 10, 7));
    let batch = mb.take();
    assert_eq!(batch.len(), 1);
    match &batch[0] {
        (Event::MatcherUpdateProcess, Payload::Counts(m, t, p)) => {
            assert_eq!((*m, *t, *p), (3, 10, 7));
        }
        _ => panic!("unexpected batch entry"),
    }
}
