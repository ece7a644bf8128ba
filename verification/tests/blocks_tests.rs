use bmail::blocks::{copy_range, find_block, find_linked_block, range_begins_with, read_number};
use bmail::firehose::{record_block, FirehoseBody, Operation};

fn store() -> Vec<u8> {
    vec![2, 0xA0, 0xA1, 3, 7, 8, 9, 4, 5, 6, 1, 2, 1, 7]
}

fn commit(path: &str, cid: Option<Vec<u8>>) -> FirehoseBody {
    FirehoseBody::Commit(vec![Operation { path: path.to_string(), cid }])
}

#[test]
fn numbers_are_read_low_bits_first() {
    assert_eq!(read_number(&[5], 0), Some((5, 1)));
    assert_eq!(read_number(&[0xAC, 0x02], 0), Some((300, 2)));
    assert_eq!(read_number(&[9, 0xAC, 0x02, 9], 1), Some((300, 3)));
    assert_eq!(read_number(&[0x80, 0x00], 0), Some((0, 2)));
    assert_eq!(read_number(&[0x7F], 0), Some((127, 1)));
    assert_eq!(read_number(&[0x80, 0x01], 0), Some((128, 2)));
}

#[test]
fn a_number_that_does_not_end_is_none() {
    assert_eq!(read_number(&[], 0), None);
    assert_eq!(read_number(&[5], 1), None);
    assert_eq!(read_number(&[5], 7), None);
    assert_eq!(read_number(&[0x80], 0), None);
    assert_eq!(read_number(&[0xFF, 0xFF], 0), None);
}

#[test]
fn a_number_must_fit_sixty_four_bits() {
    let mut greatest = vec![0xFF; 9];
    greatest.push(0x01);
    assert_eq!(read_number(&greatest, 0), Some((u64::MAX, 10)));
    let mut over = vec![0xFF; 9];
    over.push(0x02);
    assert_eq!(read_number(&over, 0), None);
    let mut long = vec![0x80; 10];
    long.push(0x01);
    assert_eq!(read_number(&long, 0), None);
}

#[test]
fn ranges_are_compared_and_copied() {
    let bytes = [1, 2, 3, 4, 5];
    assert!(range_begins_with(&bytes, 1, 4, &[2, 3]));
    assert!(range_begins_with(&bytes, 1, 4, &[2, 3, 4]));
    assert!(range_begins_with(&bytes, 1, 4, &[]));
    assert!(!range_begins_with(&bytes, 1, 4, &[2, 3, 4, 5]));
    assert!(!range_begins_with(&bytes, 1, 4, &[2, 4]));
    assert_eq!(copy_range(&bytes, 1, 4), vec![2, 3, 4]);
    assert_eq!(copy_range(&bytes, 2, 2), Vec::<u8>::new());
}

#[test]
fn a_block_is_found_under_its_identifier() {
    assert_eq!(find_block(&store(), &[7]), Some(vec![8, 9]));
    assert_eq!(find_block(&store(), &[5, 6]), Some(vec![1, 2]));
    assert_eq!(find_block(&store(), &[5, 6, 1, 2]), Some(vec![]));
    assert_eq!(find_block(&store(), &[9]), None);
    assert_eq!(find_block(&store(), &[0xA0]), None);
    assert_eq!(find_block(&store(), &[5, 6, 1, 2, 1]), None);
}

#[test]
fn the_first_section_of_an_identifier_wins() {
    let twice = vec![0, 2, 7, 1, 2, 7, 2];
    assert_eq!(find_block(&twice, &[7]), Some(vec![1]));
}

#[test]
fn a_store_that_breaks_off_holds_nothing_behind_the_break() {
    assert_eq!(find_block(&[], &[7]), None);
    assert_eq!(find_block(&[3, 0xA0], &[7]), None);
    assert_eq!(find_block(&[0], &[7]), None);
    assert_eq!(find_block(&[0, 2, 7, 1, 5, 8, 1], &[7]), Some(vec![1]));
    assert_eq!(find_block(&[0, 2, 7, 1, 5, 8, 1], &[8]), None);
    assert_eq!(find_block(&[0, 2, 7, 1, 0x80], &[8]), None);
}

#[test]
fn a_link_is_a_zero_byte_and_an_identifier() {
    assert_eq!(find_linked_block(&store(), &[0, 5, 6]), Some(vec![1, 2]));
    assert_eq!(find_linked_block(&store(), &[0, 7]), Some(vec![8, 9]));
    assert_eq!(find_linked_block(&store(), &[7]), None);
    assert_eq!(find_linked_block(&store(), &[5, 6]), None);
    assert_eq!(find_linked_block(&store(), &[0]), None);
    assert_eq!(find_linked_block(&store(), &[]), None);
    assert_eq!(find_linked_block(&store(), &[1, 7]), None);
}

#[test]
fn the_record_of_a_frame_is_read_out_of_its_blocks() {
    assert_eq!(record_block(&commit("actor.profile/3k", Some(vec![0, 5, 6])), &store()), Some(vec![1, 2]));
    assert_eq!(record_block(&commit("actor.profile/3k", Some(vec![0, 9])), &store()), None);
    assert_eq!(record_block(&commit("actor.profile/3k", None), &store()), None);
    assert_eq!(record_block(&commit("feed.post/3k", Some(vec![0, 5, 6])), &store()), None);
    assert_eq!(record_block(&FirehoseBody::Commit(vec![]), &store()), None);
    assert_eq!(record_block(&FirehoseBody::Other, &store()), None);
}
