//! The table of open files of a task: which descriptor a newly opened file
//! gets, which descriptors may be read, written and closed, and which pairs
//! of names may be linked.
//!
//! Nothing here touches a file. The calls decide; reading, writing, opening
//! and linking are done by the kernel with what they hand back.

use crate::slots::{fill_slot, first_free, install, lemma_first_free_exists, occupied};
use vstd::prelude::*;

verus! {

/// An open file: the file itself, as the kernel keeps it, and whether it may
/// be read and written.
#[derive(Debug)]
pub struct Descriptor<T> {
    /// Whether the file may be read.
    pub readable: bool,
    /// Whether the file may be written.
    pub writable: bool,
    /// The file.
    pub file: T,
}

/// Descriptor `fd` is open and its file may be read.
pub open spec fn readable_at<T>(fd_table: Seq<Option<Descriptor<T>>>, fd: usize) -> bool {
    occupied(fd_table, fd) && fd_table[fd as int]->0.readable
}

/// Descriptor `fd` is open and its file may be written.
pub open spec fn writable_at<T>(fd_table: Seq<Option<Descriptor<T>>>, fd: usize) -> bool {
    occupied(fd_table, fd) && fd_table[fd as int]->0.writable
}

/// The file to write to under descriptor `fd`; `None`, for which the value
/// of the call is `-1`, unless the descriptor is open and its file may be
/// written.
pub fn sys_write<T>(fd_table: &Vec<Option<Descriptor<T>>>, fd: usize) -> (file: Option<&T>)
    ensures
        file is Some <==> writable_at(fd_table@, fd),
        file matches Some(found) ==> *found == fd_table@[fd as int]->0.file,
{
    if fd >= fd_table.len() {
        return None;
    }
    match &fd_table[fd] {
        Some(descriptor) => {
            if !descriptor.writable {
                return None;
            }
            Some(&descriptor.file)
        },
        None => None,
    }
}

/// The file to read from under descriptor `fd`; `None`, for which the value
/// of the call is `-1`, unless the descriptor is open and its file may be
/// read.
pub fn sys_read<T>(fd_table: &Vec<Option<Descriptor<T>>>, fd: usize) -> (file: Option<&T>)
    ensures
        file is Some <==> readable_at(fd_table@, fd),
        file matches Some(found) ==> *found == fd_table@[fd as int]->0.file,
{
    if fd >= fd_table.len() {
        return None;
    }
    match &fd_table[fd] {
        Some(descriptor) => {
            if !descriptor.readable {
                return None;
            }
            Some(&descriptor.file)
        },
        None => None,
    }
}

/// Enters a file that the kernel has opened into the first empty slot of
/// the table and returns the slot as its descriptor; `-1`, with the table
/// unchanged, when the file could not be opened.
pub fn sys_open<T>(fd_table: &mut Vec<Option<Descriptor<T>>>, opened: Option<Descriptor<T>>) -> (fd:
    isize)
    requires
        old(fd_table)@.len() <= isize::MAX,
    ensures
        match opened {
            Some(descriptor) => {
                &&& fd == first_free(old(fd_table)@)
                &&& 0 <= fd <= old(fd_table)@.len()
                &&& final(fd_table)@ == install(old(fd_table)@, descriptor)
            },
            None => fd == -1 && final(fd_table)@ == old(fd_table)@,
        },
{
    match opened {
        Some(descriptor) => fill_slot(fd_table, descriptor) as isize,
        None => -1,
    }
}

/// Closes descriptor `fd`: its slot becomes empty and the value is `0`;
/// `-1`, with the table unchanged, when no file is open under `fd`.
pub fn sys_close<T>(fd_table: &mut Vec<Option<T>>, fd: usize) -> (ret: isize)
    ensures
        ret == if occupied(old(fd_table)@, fd) {
            0int
        } else {
            -1int
        },
        final(fd_table)@ == if occupied(old(fd_table)@, fd) {
            old(fd_table)@.update(fd as int, None)
        } else {
            old(fd_table)@
        },
{
    if fd >= fd_table.len() {
        return -1;
    }
    if fd_table[fd].is_none() {
        return -1;
    }
    let _ = fd_table[fd].take();
    0
}

/// Decides whether `new_path` may become another name of `old_path`: `0`,
/// on which the kernel makes the link, unless the two names are the same,
/// for which the value is `-1`.
pub fn sys_linkat(old_path: &String, new_path: &String) -> (ret: isize)
    ensures
        ret == if old_path@ == new_path@ {
            -1int
        } else {
            0int
        },
{
    if *old_path == *new_path {
        return -1;
    }
    0
}

/// A descriptor that has been closed is handed out again before any
/// descriptor above it: the next file gets it, unless a lower descriptor
/// was empty already.
pub proof fn closed_descriptor_is_used_again<T>(fd_table: Seq<Option<T>>, fd: usize)
    requires
        occupied(fd_table, fd),
    ensures
        first_free(fd_table.update(fd as int, None)) == if first_free(fd_table) < fd {
            first_free(fd_table)
        } else {
            fd as int
        },
{
    let closed = fd_table.update(fd as int, None);
    lemma_first_free_exists(fd_table);
    lemma_first_free_exists(closed);
    let before = first_free(fd_table);
    let next = first_free(closed);
    if next > fd {
        assert(closed[fd as int] is Some);
    }
    if next < before {
        assert(fd_table[next] is Some);
    }
    if before < next {
        assert(closed[before] is Some);
    }
}

} // verus!
