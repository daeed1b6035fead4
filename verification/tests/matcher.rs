use ropgadget_rs::cpu::arm::Arm64;
use ropgadget_rs::cpu::x86::X64;
use ropgadget_rs::cpu::Cpu;
use ropgadget_rs::error::Error;
use ropgadget_rs::gadget::{
    collect_previous_instructions, get_all_valid_positions_and_length, InstructionGroup,
};
use ropgadget_rs::matcher::{chunk_size, scan_patterns};
use ropgadget_rs::section::Section;
use ropgadget_rs::session::{RopProfileStrategy, Session};

fn session() -> Session {
    let mut image = vec![0u8; 64];
    image[0..4].copy_from_slice(&[0x7f, 0x45, 0x4c, 0x46]);
    image[4] = 2;
    image[5] = 1;
    image[18..20].copy_from_slice(&0x3eu16.to_le_bytes());
    image[40..48].copy_from_slice(&64u64.to_le_bytes());
    image[58..60].copy_from_slice(&64u16.to_le_bytes());
    Session::new("memory".to_string(), image).unwrap()
}

fn section(data: Vec<u8>) -> Section {
    Section::new(0x1000, 0x1000 + data.len() as u64).data(data)
}

fn scan(strategy: RopProfileStrategy, bytes: &[u8]) -> Vec<(usize, usize)> {
    scan_patterns(strategy, &X64.ret_insns(), &bytes.to_vec(), 0, bytes.len())
}

#[test]
fn fast_stops_at_the_first_pattern_with_a_match() {
    let bytes = [0xc3, 0x90, 0xc3, 0xc2, 0x10, 0x00, 0xc3];
    assert_eq!(scan(RopProfileStrategy::Fast, &bytes), vec![(0, 1), (2, 1), (6, 1)]);
    // the first pattern has no match here, the second has
    let bytes = [0xcb, 0xc2, 0x00, 0x00];
    assert_eq!(scan(RopProfileStrategy::Fast, &bytes), vec![(0, 1)]);
}

#[test]
fn complete_tries_every_pattern() {
    let bytes = [0xc3, 0x90, 0xc3, 0xc2, 0x10, 0x00, 0xc3];
    assert_eq!(scan(RopProfileStrategy::Complete, &bytes), vec![(0, 1), (2, 1), (6, 1), (3, 3)]);
    let bytes = [0xcb, 0xc2, 0x00, 0x00];
    assert_eq!(scan(RopProfileStrategy::Complete, &bytes), vec![(0, 1), (1, 3)]);
    let bytes = [0xca, 0xff, 0xff, 0xcb, 0xc3];
    assert_eq!(scan(RopProfileStrategy::Complete, &bytes), vec![(4, 1), (3, 1), (0, 3)]);
}

#[test]
fn a_pattern_longer_than_the_bytes_has_no_match() {
    assert!(scan(RopProfileStrategy::Complete, &[0xc2, 0x00]).is_empty());
    assert!(scan(RopProfileStrategy::Complete, &[0xca]).is_empty());
    assert!(scan(RopProfileStrategy::Complete, &[]).is_empty());
    assert!(scan(RopProfileStrategy::Fast, &[]).is_empty());
}

#[test]
fn no_pattern_no_match() {
    let none: Vec<(Vec<u8>, Vec<u8>)> = Vec::new();
    let bytes = vec![0xc3, 0xc3];
    assert!(scan_patterns(RopProfileStrategy::Complete, &none, &bytes, 0, 2).is_empty());
    assert!(X64.jmp_insns().is_empty());
}

#[test]
fn overlapping_matches_are_kept() {
    let group = vec![(vec![0x90, 0x90], vec![0xff, 0xff])];
    let bytes = vec![0x90, 0x90, 0x90, 0x90];
    assert_eq!(
        scan_patterns(RopProfileStrategy::Fast, &group, &bytes, 0, 4),
        vec![(0, 2), (1, 2), (2, 2)]
    );
}

#[test]
fn one_offset_may_be_listed_under_several_patterns() {
    let group = vec![
        (vec![0xc3], vec![0xff]),
        (vec![0xc0], vec![0xf0]),
        (vec![0xc3], vec![0xff]),
    ];
    let bytes = vec![0x90, 0xc3, 0xc7];
    assert_eq!(
        scan_patterns(RopProfileStrategy::Complete, &group, &bytes, 0, 3),
        vec![(1, 1), (1, 1), (2, 1), (1, 1)]
    );
    assert_eq!(scan_patterns(RopProfileStrategy::Fast, &group, &bytes, 0, 3), vec![(1, 1)]);
}

#[test]
fn only_the_bits_under_the_mask_count() {
    let ret = Arm64.ret_insns();
    let find = |word: [u8; 4]| {
        scan_patterns(RopProfileStrategy::Fast, &ret, &word.to_vec(), 0, 4)
    };
    // ret x30, ret x1, retaa
    assert_eq!(find([0xc0, 0x03, 0x5f, 0xd6]), vec![(0, 4)]);
    assert_eq!(find([0x20, 0x00, 0x5f, 0xd6]), vec![(0, 4)]);
    assert_eq!(find([0xff, 0x0b, 0x5f, 0xd6]), vec![(0, 4)]);
    // a bit under the mask differs
    assert!(find([0xc0, 0x13, 0x5f, 0xd6]).is_empty());
    assert!(find([0xc0, 0x03, 0x3f, 0xd6]).is_empty());
    assert!(find([0xc0, 0x03, 0x5f, 0xd7]).is_empty());
}

#[test]
fn only_the_offsets_asked_for_are_searched() {
    let group = vec![(vec![0xc3], vec![0xff])];
    let bytes = vec![0xc3, 0xc3, 0xc3, 0xc3];
    let find = |lo, hi| scan_patterns(RopProfileStrategy::Fast, &group, &bytes, lo, hi);
    assert_eq!(find(1, 3), vec![(1, 1), (2, 1)]);
    assert_eq!(find(2, 100), vec![(2, 1), (3, 1)]);
    assert_eq!(find(0, 0), Vec::new());
    assert_eq!(find(10, 20), Vec::new());
    assert_eq!(find(3, usize::MAX), vec![(3, 1)]);
    // a match belongs to the offset at which it starts, wherever it ends
    let wide = vec![(vec![0xc2, 0x00, 0x00], vec![0xff, 0x00, 0x00])];
    let bytes = vec![0x90, 0xc2, 0x08, 0x00];
    assert_eq!(scan_patterns(RopProfileStrategy::Fast, &wide, &bytes, 0, 2), vec![(1, 3)]);
    assert_eq!(scan_patterns(RopProfileStrategy::Fast, &wide, &bytes, 2, 4), Vec::new());
}

#[test]
fn collect_previous_instructions_follows_the_strategy_of_the_session() {
    let bytes = vec![0xcb, 0xc3, 0xca, 0x00, 0x00];
    let fast = session();
    assert_eq!(
        collect_previous_instructions(&fast, &X64.ret_insns(), &bytes),
        Ok(vec![(1, 1)])
    );
    let complete = session().profile_type(RopProfileStrategy::Complete);
    assert_eq!(
        collect_previous_instructions(&complete, &X64.ret_insns(), &bytes),
        Ok(vec![(1, 1), (0, 1), (2, 3)])
    );
}

#[test]
fn each_worker_gets_the_terminators_of_its_chunk() {
    let s = session().nb_thread(2);
    let sec = section(vec![0xc3, 0x90, 0xc3, 0xc3, 0xc3]);
    assert_eq!(chunk_size(5, 2), 2);
    let find = |cursor| get_all_valid_positions_and_length(&s, &X64, &sec, cursor);
    assert_eq!(find(0), Ok(vec![(0, 1)]));
    assert_eq!(find(2), Ok(vec![(2, 1), (3, 1)]));
    assert_eq!(find(4), Ok(vec![(4, 1)]));
    assert_eq!(find(5), Ok(vec![]));
    assert_eq!(find(usize::MAX), Ok(vec![]));
}

#[test]
fn a_terminator_belongs_to_the_chunk_in_which_it_starts() {
    let s = session().nb_thread(4);
    let sec = section(vec![0xc0, 0x03, 0x5f, 0xd6, 0xc0, 0x03, 0x5f, 0xd6]);
    assert_eq!(chunk_size(8, 4), 2);
    let find = |cursor| get_all_valid_positions_and_length(&s, &Arm64, &sec, cursor);
    assert_eq!(find(0), Ok(vec![(0, 4)]));
    assert_eq!(find(2), Ok(vec![]));
    assert_eq!(find(4), Ok(vec![(4, 4)]));
    assert_eq!(find(6), Ok(vec![]));
}

#[test]
fn the_group_of_the_session_picks_the_patterns() {
    let sec = section(vec![0xc3, 0xff, 0xd0, 0xe8, 0x01, 0x02, 0x03, 0x04]);
    let find = |group, strategy| {
        let s = session().nb_thread(1).gadget_type(group).profile_type(strategy);
        get_all_valid_positions_and_length(&s, &X64, &sec, 0)
    };
    assert_eq!(find(InstructionGroup::Ret, RopProfileStrategy::Complete), Ok(vec![(0, 1)]));
    assert_eq!(find(InstructionGroup::Call, RopProfileStrategy::Fast), Ok(vec![(1, 2)]));
    assert_eq!(
        find(InstructionGroup::Call, RopProfileStrategy::Complete),
        Ok(vec![(1, 2), (3, 5)])
    );
    assert_eq!(find(InstructionGroup::Jump, RopProfileStrategy::Complete), Ok(vec![]));
    for group in [
        InstructionGroup::Undefined,
        InstructionGroup::Int,
        InstructionGroup::Iret,
        InstructionGroup::Privileged,
    ] {
        assert_eq!(
            find(group, RopProfileStrategy::Fast),
            Err(Error::GenericError("No pattern for this group of instructions"))
        );
    }
}
