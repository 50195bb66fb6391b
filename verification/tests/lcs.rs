use tracestore::lcs::{BlockVocabulary, InstructionSequence, SequenceError};

#[test]
fn vocab_split_count() {
    let mut vocab = BlockVocabulary::default();
    vocab.add_experience_to_vocabulary(&vec![0, 1, 2, 1]);
    assert_eq!(vocab.num_words, 2);
    vocab.add_experience_to_vocabulary(&vec![0, 1]);
    assert_eq!(vocab.num_words, 2);
    vocab.add_experience_to_vocabulary(&vec![2, 3]);
    assert_eq!(vocab.num_words, 3);
    vocab.add_experience_to_vocabulary(&vec![4, 1]);
    assert_eq!(vocab.num_words, 4);
    vocab.add_experience_to_vocabulary(&vec![3, 4]);
    assert_eq!(vocab.num_words, 4);

    let blk_vocab = vocab.addrs_to_block_vocabulary(&vec![0, 1, 2, 3, 4]);
    assert_eq!(blk_vocab, vec![5, 10, 15, 20]);
}

#[test]
fn split_divides_a_sequence() {
    let mut run = InstructionSequence::new(10);
    run.insert(11);
    run.insert(12);
    run.insert(13);
    run.insert_exit(99);
    let child = run.split_at(12).unwrap();
    assert_eq!(run.entries(), &vec![10, 11]);
    assert_eq!(run.exits(), &vec![12]);
    assert_eq!(child.entries(), &vec![12, 13]);
    assert_eq!(child.exits(), &vec![99]);
    assert_eq!(child.base(), 12);
}

#[test]
fn split_at_missing_entry_fails() {
    let mut run = InstructionSequence::new(10);
    run.insert(11);
    let err = run.split_at(77).unwrap_err();
    assert_eq!(err, SequenceError::EntryNotPresent);
    assert_eq!(run.entries(), &vec![10, 11]);
}

#[test]
fn sequence_accessors_report_contents() {
    let mut run = InstructionSequence::new(3);
    run.insert(4);
    run.insert_exit(8);
    assert_eq!(run.base(), 3);
    assert_eq!(run.id(), 0);
    assert_eq!(run.entries(), &vec![3, 4]);
    assert_eq!(run.exits(), &vec![8]);
}
