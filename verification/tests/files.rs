use kernel_sync::fd::{sys_close, sys_linkat, sys_open, sys_read, sys_write, Descriptor};
use kernel_sync::slots::fill_slot;

fn file(name: u32, readable: bool, writable: bool) -> Descriptor<u32> {
    Descriptor { readable, writable, file: name }
}

fn names(fd_table: &Vec<Option<Descriptor<u32>>>) -> Vec<Option<u32>> {
    fd_table.iter().map(|slot| slot.as_ref().map(|d| d.file)).collect()
}

#[test]
fn open_hands_out_descriptors_from_zero() {
    let mut fd_table: Vec<Option<Descriptor<u32>>> = Vec::new();
    assert_eq!(sys_open(&mut fd_table, Some(file(10, true, false))), 0);
    assert_eq!(sys_open(&mut fd_table, Some(file(11, true, true))), 1);
    assert_eq!(sys_open(&mut fd_table, Some(file(12, false, true))), 2);
    assert_eq!(names(&fd_table), vec![Some(10), Some(11), Some(12)]);
}

#[test]
fn open_of_a_file_that_is_not_there_gives_minus_one() {
    let mut fd_table: Vec<Option<Descriptor<u32>>> = Vec::new();
    sys_open(&mut fd_table, Some(file(10, true, false)));
    assert_eq!(sys_open(&mut fd_table, None), -1);
    assert_eq!(names(&fd_table), vec![Some(10)]);
}

#[test]
fn open_uses_the_lowest_closed_descriptor() {
    let mut fd_table: Vec<Option<Descriptor<u32>>> = Vec::new();
    for name in 0..5 {
        sys_open(&mut fd_table, Some(file(name, true, true)));
    }
    assert_eq!(sys_close(&mut fd_table, 3), 0);
    assert_eq!(sys_close(&mut fd_table, 1), 0);
    assert_eq!(sys_open(&mut fd_table, Some(file(20, true, true))), 1);
    assert_eq!(sys_open(&mut fd_table, Some(file(21, true, true))), 3);
    assert_eq!(sys_open(&mut fd_table, Some(file(22, true, true))), 5);
    assert_eq!(
        names(&fd_table),
        vec![Some(0), Some(20), Some(2), Some(21), Some(4), Some(22)]
    );
}

#[test]
fn close_empties_the_slot() {
    let mut fd_table = vec![Some(7u8), Some(8), Some(9)];
    assert_eq!(sys_close(&mut fd_table, 1), 0);
    assert_eq!(fd_table, vec![Some(7), None, Some(9)]);
}

#[test]
fn close_of_what_is_not_open_gives_minus_one() {
    let mut fd_table = vec![Some(7u8), None];
    assert_eq!(sys_close(&mut fd_table, 1), -1);
    assert_eq!(sys_close(&mut fd_table, 2), -1);
    assert_eq!(sys_close(&mut fd_table, usize::MAX), -1);
    assert_eq!(fd_table, vec![Some(7), None]);
    assert_eq!(sys_close(&mut fd_table, 0), 0);
    assert_eq!(sys_close(&mut fd_table, 0), -1);
    assert_eq!(fd_table, vec![None, None]);
    let mut empty: Vec<Option<u8>> = Vec::new();
    assert_eq!(sys_close(&mut empty, 0), -1);
}

#[test]
fn write_needs_an_open_writable_file() {
    let fd_table = vec![Some(file(10, true, false)), None, Some(file(12, false, true))];
    assert_eq!(sys_write(&fd_table, 0), None);
    assert_eq!(sys_write(&fd_table, 1), None);
    assert_eq!(sys_write(&fd_table, 2), Some(&12));
    assert_eq!(sys_write(&fd_table, 3), None);
}

#[test]
fn read_needs_an_open_readable_file() {
    let fd_table = vec![Some(file(10, true, false)), None, Some(file(12, false, true))];
    assert_eq!(sys_read(&fd_table, 0), Some(&10));
    assert_eq!(sys_read(&fd_table, 1), None);
    assert_eq!(sys_read(&fd_table, 2), None);
    assert_eq!(sys_read(&fd_table, 3), None);
}

#[test]
fn file_open_both_ways_is_read_and_written() {
    let fd_table = vec![Some(file(5, true, true)), Some(file(6, false, false))];
    assert_eq!(sys_read(&fd_table, 0), Some(&5));
    assert_eq!(sys_write(&fd_table, 0), Some(&5));
    assert_eq!(sys_read(&fd_table, 1), None);
    assert_eq!(sys_write(&fd_table, 1), None);
}

#[test]
fn link_to_the_same_name_is_refused() {
    let a = String::from("notes");
    let b = String::from("notes");
    let c = String::from("notes2");
    assert_eq!(sys_linkat(&a, &b), -1);
    assert_eq!(sys_linkat(&a, &a), -1);
    assert_eq!(sys_linkat(&a, &c), 0);
    assert_eq!(sys_linkat(&c, &a), 0);
    assert_eq!(sys_linkat(&String::new(), &String::new()), -1);
    assert_eq!(sys_linkat(&String::new(), &a), 0);
}

#[test]
fn fill_slot_fills_gaps_before_it_appends() {
    let mut list: Vec<Option<char>> = vec![Some('a'), None, Some('c'), None];
    assert_eq!(fill_slot(&mut list, 'x'), 1);
    assert_eq!(fill_slot(&mut list, 'y'), 3);
    assert_eq!(fill_slot(&mut list, 'z'), 4);
    assert_eq!(list, vec![Some('a'), Some('x'), Some('c'), Some('y'), Some('z')]);
}
