use std::collections::VecDeque;

use ros::proc::elf::{
    check_page_free, compute_phdr_addr, elf_max_end, try_compute_phdr_addr, ElfLoadInfo, elf_page_access, LoadedSegment, is_power_two, parse_elf, segment_fill, segment_pages,
    try_parse_elf, user_stack_range,
};
use ros::proc::process::{
    alloc_fd, build_user_argv, heap_layout, make_initial_user_ctx, process_name, InitialTaskInfo, AT_ENTRY, AT_NULL,
    AT_PAGESZ, AT_PHDR, AT_PHENT, AT_PHNUM, AT_RANDOM,
};
use ros::proc::proc_manager::spawn_task;
use ros::proc::sched::{
    dequeue_next_ready, enqueue_ready, on_timer_tick, schedule_irq, switch_to_task, task_ids, wake_sleepers,
    wake_tty_readers, SchedState, QUANTUM_TICKS,
};
use ros::proc::task_manager::{TaskManager, TaskState, WaitReason};
use ros::syscall::syscall_dispatch::{GprFrame, IretFrame, TrapFrame};
use ros::sys::errors::{ElfLoadError, MapElfError, ProcessError};

fn elf_image(entry: u64, vaddr: u64, memsz: u64, extra: usize) -> Vec<u8> {
    let mut b = Vec::new();
    b.extend_from_slice(&[0x7f, b'E', b'L', b'F', 2, 1, 1, 0, 0, 0, 0, 0, 0, 0, 0, 0]);
    b.extend_from_slice(&2u16.to_le_bytes());
    b.extend_from_slice(&0x3eu16.to_le_bytes());
    b.extend_from_slice(&1u32.to_le_bytes());
    b.extend_from_slice(&entry.to_le_bytes());
    b.extend_from_slice(&64u64.to_le_bytes());
    b.extend_from_slice(&0u64.to_le_bytes());
    b.extend_from_slice(&0u32.to_le_bytes());
    b.extend_from_slice(&64u16.to_le_bytes());
    b.extend_from_slice(&56u16.to_le_bytes());
    b.extend_from_slice(&1u16.to_le_bytes());
    b.extend_from_slice(&64u16.to_le_bytes());
    b.extend_from_slice(&0u16.to_le_bytes());
    b.extend_from_slice(&0u16.to_le_bytes());
    let total = (64 + 56 + extra) as u64;
    b.extend_from_slice(&1u32.to_le_bytes());
    b.extend_from_slice(&5u32.to_le_bytes());
    b.extend_from_slice(&0u64.to_le_bytes());
    b.extend_from_slice(&vaddr.to_le_bytes());
    b.extend_from_slice(&vaddr.to_le_bytes());
    b.extend_from_slice(&total.to_le_bytes());
    b.extend_from_slice(&memsz.to_le_bytes());
    b.extend_from_slice(&0x1000u64.to_le_bytes());
    for i in 0..extra {
        b.push(i as u8);
    }
    b
}

#[test]
fn elf_image_is_parsed() {
    let img = elf_image(0x40_0078, 0x40_0000, 0x2000, 8);
    let info = try_parse_elf(&img).unwrap().unwrap();
    assert_eq!(info.entry_point, 0x40_0078);
    assert_eq!(info.phoff, 64);
    assert_eq!(info.phnum, 1);
    assert_eq!(info.segments.len(), 1);
    let s = &info.segments[0];
    assert_eq!(s.virt_addr, 0x40_0000);
    assert_eq!(s.file_size, 128);
    assert_eq!(s.mem_size, 0x2000);
    assert_eq!(s.data, img);
    assert_eq!(compute_phdr_addr(&info), Ok(0x40_0040));
    assert!(parse_elf(&img).is_ok());
}

#[test]
fn elf_entry_outside_segments_is_refused() {
    let img = elf_image(0x90_0000, 0x40_0000, 0x2000, 0);
    assert_eq!(try_parse_elf(&img).unwrap().err(), Some(ElfLoadError::NoEntryInAnySegment));
}

#[test]
fn elf_segment_outside_user_space_is_refused() {
    let img = elf_image(0x1000, 0x1000, 0x2000, 0);
    assert_eq!(try_parse_elf(&img).unwrap().err(), Some(ElfLoadError::SegmentVirtOutOfBounds));
}

#[test]
fn elf_segment_larger_on_file_is_refused() {
    let img = elf_image(0x40_0000, 0x40_0000, 0x10, 0);
    assert_eq!(try_parse_elf(&img).unwrap().err(), Some(ElfLoadError::FileSizeLargerThanMemSize));
}

#[test]
fn not_an_elf_image() {
    assert_eq!(try_parse_elf(b"hello").unwrap().err(), Some(ElfLoadError::ParserError));
}

#[test]
fn elf_helpers() {
    assert!(is_power_two(0));
    assert!(is_power_two(4096));
    assert!(!is_power_two(12));
    assert_eq!(elf_page_access(5), (false, true));
    assert_eq!(elf_page_access(6), (true, false));
    assert_eq!(segment_pages(0x40_0123, 0x1000), (0x40_0000, 2));
    assert_eq!(check_page_free(&[0x40_0000, 0x40_1000], 0x40_2000), Ok(()));
    assert_eq!(
        check_page_free(&[0x40_0000, 0x40_1000], 0x40_1000),
        Err(MapElfError::OverlappingPage { va: 0x40_1000 })
    );
    assert_eq!(segment_fill(0x40_0000, 0x10, 0x30), Ok((0x40_0010, 0x20)));
    assert_eq!(segment_fill(0x40_0000, 0x30, 0x10), Err(MapElfError::CopyTooLarge));
    assert_eq!(segment_fill(0x40_0000, 0x10, 0x10), Ok((0x40_0000, 0)));
    assert_eq!(user_stack_range(), (0x8000_0000, 0x7fff_7000));
}

#[test]
fn argv_layout_on_stack() {
    let args = vec![b"/bin/ls".to_vec(), b"-l".to_vec()];
    let top = 0x8000_0000u64;
    let l = build_user_argv(top, top - 0x8000, &args, 0x40_0078, 0x40_0040, 56, 1).unwrap();
    assert_eq!(l.argc, 2);
    // "/bin/ls\0" lies just below the top, "-l\0" below it
    assert_eq!(l.bytes[0], (top - 8, b"/bin/ls\0".to_vec()));
    assert_eq!(l.bytes[1], (top - 11, b"-l\0".to_vec()));
    let random = ((top - 11) / 8) * 8 - 16;
    assert_eq!(l.bytes[2].0, random);
    assert_eq!(l.bytes[2].1[0], 0xA5);
    let words: Vec<u64> = l.words.iter().map(|w| w.1).collect();
    assert_eq!(
        words,
        vec![
            0, AT_NULL, random, AT_RANDOM, 0x40_0078, AT_ENTRY, 1, AT_PHNUM, 56, AT_PHENT, 0x40_0040, AT_PHDR, 4096,
            AT_PAGESZ, 0, 0, top - 11, top - 8, 2
        ]
    );
    assert_eq!(l.rsp, random - 8 * 19);
    assert_eq!(l.argv_ptr, l.rsp + 8);
    assert_eq!(l.words.last().unwrap().0, l.rsp);
}

#[test]
fn argv_too_large_for_stack() {
    let args = vec![vec![b'a'; 300]];
    let top = 0x8000_0000u64;
    assert_eq!(build_user_argv(top, top - 512, &args, 0, 0, 56, 1).err(), Some(ProcessError::OutOfMemory));
}

#[test]
fn initial_user_context() {
    let c = make_initial_user_ctx(0x40_0078, 0x7fff_ff00, 3, 0x7fff_ff10, 0x23, 0x1b);
    assert_eq!(c.regs.rdi, 3);
    assert_eq!(c.regs.rsi, 0x7fff_ff10);
    assert_eq!(c.regs.rax, 0);
    assert_eq!(c.iret.rip, 0x40_0078);
    assert_eq!(c.iret.rflags, 0x202);
    assert_eq!(c.iret.cs, 0x23);
    assert_eq!(c.iret.ss, 0x1b);
}

#[test]
fn fd_slots_are_reused() {
    let mut fds: Vec<Option<u32>> = vec![Some(10), None, Some(12)];
    assert_eq!(alloc_fd(&mut fds, 11), 1);
    assert_eq!(fds[1], Some(11));
    assert_eq!(alloc_fd(&mut fds, 13), 3);
    assert_eq!(fds.len(), 4);
}

#[test]
fn process_name_is_last_component() {
    assert_eq!(process_name(b"/bin/shell"), b"shell".to_vec());
    assert_eq!(process_name(b"init"), b"init".to_vec());
    assert_eq!(process_name(b"/bin/"), b"".to_vec());
}

#[test]
fn heap_follows_image() {
    assert_eq!(heap_layout(0x40_1234, 0x8000_0000), (0x40_3000, 0x40_3000 + 0x800_0000, 0x7f00_0000));
    let (start, max, mmap_top) = heap_layout(0x7e00_0000, 0x8000_0000);
    assert_eq!(start, 0x7e00_1000);
    assert_eq!(mmap_top, 0x7f00_0000);
    assert_eq!(max, 0x7eff_f000);
}

fn iti(kstack_top: u64) -> InitialTaskInfo {
    InitialTaskInfo { entry_rip: 0x40_0000, user_rsp: 0x7fff_0000, argc: 0, argv_ptr: 0, kstack_top }
}

fn manager_with(tids: &[u64]) -> (TaskManager, VecDeque<u64>) {
    let mut tm = TaskManager::new();
    let mut rq = VecDeque::new();
    for &t in tids {
        spawn_task(&mut tm, &mut rq, t, t, &iti(TaskManager::kstack_top_for_tid(t)), 0x23, 0x1b);
    }
    (tm, rq)
}

#[test]
fn spawned_tasks_run_in_order() {
    let (mut tm, mut rq) = manager_with(&[1, 2, 3]);
    assert_eq!(task_ids(&tm.tasks), vec![1, 2, 3]);
    assert_eq!(dequeue_next_ready(&mut tm, &mut rq), Some(1));
    assert!(!tm.tasks[&1].queued);
    enqueue_ready(&mut tm, &mut rq, 1);
    assert_eq!(dequeue_next_ready(&mut tm, &mut rq), Some(2));
    assert_eq!(dequeue_next_ready(&mut tm, &mut rq), Some(3));
    assert_eq!(dequeue_next_ready(&mut tm, &mut rq), Some(1));
    assert_eq!(dequeue_next_ready(&mut tm, &mut rq), None);
}

#[test]
fn enqueue_twice_queues_once() {
    let (mut tm, mut rq) = manager_with(&[5]);
    enqueue_ready(&mut tm, &mut rq, 5);
    assert_eq!(rq.len(), 1);
    enqueue_ready(&mut tm, &mut rq, 99);
    assert_eq!(rq.len(), 1);
}

#[test]
fn waiting_tasks_are_skipped_and_woken() {
    let (mut tm, mut rq) = manager_with(&[1, 2]);
    let t1 = tm.tasks.get_mut(&1).unwrap();
    t1.state = TaskState::Waiting;
    t1.wait = Some(WaitReason::SleepUntil(50));
    t1.wake_tick = 50;
    let t2 = tm.tasks.get_mut(&2).unwrap();
    t2.state = TaskState::Waiting;
    t2.wait = Some(WaitReason::IO);
    assert_eq!(dequeue_next_ready(&mut tm, &mut rq), None);
    wake_sleepers(&mut tm, &mut rq, 49);
    assert!(rq.is_empty());
    wake_sleepers(&mut tm, &mut rq, 50);
    assert_eq!(tm.tasks[&1].state, TaskState::Ready);
    assert_eq!(tm.tasks[&1].wait, None);
    wake_tty_readers(&mut tm, &mut rq);
    assert_eq!(rq, VecDeque::from(vec![1, 2]));
}

#[test]
fn quantum_expiry_requests_reschedule() {
    let (mut tm, mut rq) = manager_with(&[1]);
    let mut sched = SchedState::new();
    assert_eq!(sched.ticks_left, QUANTUM_TICKS);
    tm.set_current_tid(1);
    for t in 0..QUANTUM_TICKS - 1 {
        on_timer_tick(&mut sched, &mut tm, &mut rq, t);
        assert!(!sched.need_resched);
    }
    on_timer_tick(&mut sched, &mut tm, &mut rq, QUANTUM_TICKS);
    assert!(sched.need_resched);
}

#[test]
fn switch_targets_next_task() {
    let (mut tm, mut rq) = manager_with(&[1, 2]);
    let mut sched = SchedState::new();
    let next = dequeue_next_ready(&mut tm, &mut rq).unwrap();
    let target = switch_to_task(&mut sched, &mut tm, next).unwrap();
    assert_eq!(tm.current_tid(), 1);
    assert_eq!(tm.tasks[&1].state, TaskState::Running);
    assert_eq!(target.kstack_top, TaskManager::kstack_top_for_tid(1));
    assert!(switch_to_task(&mut sched, &mut tm, 77).is_none());
    sched.need_resched = true;
    let tf = TrapFrame {
        regs: GprFrame::default(),
        vector: 32,
        error_code: 0,
        iret: IretFrame { rip: 0x40_0000, cs: 0x23, rflags: 0x202, rsp: 0x7fff_0000, ss: 0x1b },
    };
    assert!(schedule_irq(&mut sched, &mut tm, &mut rq, &tf));
    assert!(!sched.need_resched);
    assert_eq!(tm.tasks[&1].state, TaskState::Ready);
    assert_eq!(rq, VecDeque::from(vec![2, 1]));
}

#[test]
fn kernel_stacks_are_a_stride_apart() {
    assert_eq!(TaskManager::kstack_top_for_tid(0), 0xFFFF_FFFF_FF00_0000);
    assert_eq!(TaskManager::kstack_top_for_tid(1), 0xFFFF_FFFF_FF00_0000 - 0x9000);
    let mut tm = TaskManager::new();
    assert_eq!(tm.get_next_tid(), 1);
    assert_eq!(tm.get_next_tid(), 2);
}

#[test]
fn first_user_entry_frame() {
    let (mut tm, _rq) = manager_with(&[4]);
    let t = tm.tasks.get_mut(&4).unwrap();
    let top = t.kstack_top;
    let (at, frame) = t.init_user_entry_kctx();
    assert_eq!(at, top - 176);
    assert_eq!(t.kctx.rsp, at - 8);
    assert_eq!(frame.iret.rip, 0x40_0000);
    assert_eq!(frame.vector, 0);
}

fn seg_at(va: u64, memsz: u64) -> LoadedSegment {
    LoadedSegment { virt_addr: va, file_offset: 0, file_size: 0, mem_size: memsz, align: 0x1000, flags: 4, data: Vec::new() }
}

#[test]
fn elf_max_end_is_highest_segment_end() {
    assert_eq!(elf_max_end(&[]), 0);
    let segs = vec![seg_at(0x40_0000, 0x1234), seg_at(0x60_0000, 0x10), seg_at(0x50_0000, 0x8000)];
    assert_eq!(elf_max_end(&segs), 0x60_0010);
}

#[test]
fn phdr_address_overflow_is_told_apart() {
    let mut seg = seg_at(u64::MAX - 8, 0x100);
    seg.file_offset = 0;
    seg.file_size = 0x100;
    let info = ElfLoadInfo { entry_point: 0, phoff: 0x40, phentsize: 56, phnum: 1, segments: vec![seg.clone()] };
    assert_eq!(try_compute_phdr_addr(&info), None);
    let info2 = ElfLoadInfo { entry_point: 0, phoff: 0x400, phentsize: 56, phnum: 1, segments: vec![seg] };
    assert_eq!(try_compute_phdr_addr(&info2), Some(Err(ElfLoadError::PhdrNotMappedByLoad)));
    let ok = ElfLoadInfo { entry_point: 0, phoff: 0x40, phentsize: 56, phnum: 1, segments: vec![seg_at(0x40_0000, 0x100)] };
    assert_eq!(try_compute_phdr_addr(&ok), Some(Err(ElfLoadError::PhdrNotMappedByLoad)));
}
