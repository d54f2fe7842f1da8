use rockos::elf::{
    apply_user_meta, error_without_allocator, finish_elf, finish_elf_exec, load_elf, load_elf_exec,
    unmap_old_image_best_effort,
    ElfError, ElfLoadedMeta, ElfLoader, ExecArgs, LoadAction, LoadEnd,
};
use rockos::exec_stack::build_exec_stack;
use rockos::memory::{BitmapFrameAllocator, FrameRegion};
use rockos::paging::{MapOutcome, PageAction, PageFlags};
use rockos::user::UserImage;

const META: ElfLoadedMeta = ElfLoadedMeta {
    entry: 0x400078,
    phdr: 0x400040,
    phnum: 1,
    phent: 56,
    image_end: 0x400081,
    rw_min: 0x401000,
};

fn allocator(frames: u64) -> BitmapFrameAllocator {
    BitmapFrameAllocator::new(&[FrameRegion {
        start_frame: 0x200,
        end_frame: 0x200 + frames,
        usable: true,
    }])
}

/// A program header: type, flags, file offset, address, bytes in the file and in memory, alignment.
fn phdr(h: [u64; 7]) -> Vec<u8> {
    let mut v = Vec::new();
    v.extend_from_slice(&(h[0] as u32).to_le_bytes());
    v.extend_from_slice(&(h[1] as u32).to_le_bytes());
    v.extend_from_slice(&h[2].to_le_bytes());
    v.extend_from_slice(&h[3].to_le_bytes());
    v.extend_from_slice(&h[3].to_le_bytes());
    v.extend_from_slice(&h[4].to_le_bytes());
    v.extend_from_slice(&h[5].to_le_bytes());
    v.extend_from_slice(&h[6].to_le_bytes());
    v
}

fn image(headers: &[[u64; 7]], len: usize) -> Vec<u8> {
    let mut v = vec![0u8; 64];
    v[..6].copy_from_slice(&[0x7f, b'E', b'L', b'F', 2, 1]);
    v[16] = 2;
    v[18] = 0x3e;
    v[24..32].copy_from_slice(&0x400078u64.to_le_bytes());
    v[32..40].copy_from_slice(&64u64.to_le_bytes());
    v[54] = 56;
    v[56] = headers.len() as u8;
    for h in headers {
        v.extend_from_slice(&phdr(*h));
    }
    v.resize(len, 0xcc);
    v
}

/// Runs a load where everything goes well; what was asked for, and the end.
fn load(loader: &mut ElfLoader, fa: &mut BitmapFrameAllocator) -> (Vec<LoadAction>, LoadAction) {
    let mut steps = Vec::new();
    let mut action = loader.start(fa);
    loop {
        let next = match action {
            LoadAction::Place(_) => loader.on_mapped(fa, MapOutcome::Mapped),
            LoadAction::Copy { .. } => loader.on_copied(fa, true),
            _ => return (steps, action),
        };
        steps.push(action);
        action = next;
    }
}

fn end_of(image: &[u8]) -> LoadAction {
    let mut fa = allocator(64);
    let mut loader = load_elf(image, 0);
    load(&mut loader, &mut fa).1
}

fn failed(e: ElfError) -> LoadAction {
    LoadAction::End(LoadEnd::Failed(e))
}

#[test]
fn one_segment_is_mapped_and_filled() {
    let img = image(&[[1, 5, 0, 0x400000, 0x81, 0x81, 4096]], 0x81);
    let mut fa = allocator(4);
    let mut loader = load_elf(&img, 0);
    let (steps, end) = load(&mut loader, &mut fa);
    assert_eq!(steps.len(), 2);
    match steps[0] {
        LoadAction::Place(req) => {
            assert_eq!((req.page, req.frame), (0x400000, 0x200000));
            assert!(req.zeroed);
            let text = PageFlags {
                present: true,
                writable: false,
                user_accessible: true,
                no_execute: false,
            };
            assert_eq!(req.flags, text);
        }
        other => panic!("{other:?}"),
    }
    assert_eq!(
        steps[1],
        LoadAction::Copy {
            va: 0x400000,
            file_off: 0,
            len: 0x81
        }
    );
    assert_eq!(end, LoadAction::End(LoadEnd::Loaded(META)));
    assert_eq!(fa.free_frames(), 3);
}

#[test]
fn segments_keep_their_order_and_protection() {
    let img = image(
        &[
            [1, 5, 0, 0x400000, 0x100, 0x100, 4096],
            [4, 0, 0, 0, 0, 0, 0],
            [1, 6, 0x100, 0x401ff0, 0x10, 0x2000, 0],
            [1, 4, 0x100, 0x500000, 0, 0, 4096],
        ],
        0x200,
    );
    let mut fa = allocator(16);
    let (steps, end) = load(&mut load_elf(&img, 0x1000), &mut fa);
    let pages: Vec<u64> = steps
        .iter()
        .filter_map(|s| match s {
            LoadAction::Place(req) => Some(req.page),
            _ => None,
        })
        .collect();
    assert_eq!(pages, vec![0x401000, 0x402000, 0x403000, 0x404000]);
    assert!(steps.contains(&LoadAction::Copy {
        va: 0x402ff0,
        file_off: 0x100,
        len: 0x10
    }));
    match end {
        LoadAction::End(LoadEnd::Loaded(meta)) => {
            assert_eq!(meta.entry, 0x401078);
            assert_eq!(meta.phdr, 0x401040);
            assert_eq!(meta.phnum, 4);
            assert_eq!(meta.image_end, 0x404ff0);
            assert_eq!(meta.rw_min, 0x402ff0);
        }
        other => panic!("{other:?}"),
    }
}

#[test]
fn zero_fill_needs_no_copy() {
    let img = image(
        &[
            [1, 5, 0, 0x400000, 0x78, 0x78, 4096],
            [1, 6, 0, 0x402000, 0, 0x10, 4096],
        ],
        0x100,
    );
    let mut fa = allocator(4);
    let (steps, _) = load(&mut load_elf(&img, 0), &mut fa);
    assert!(matches!(steps[2], LoadAction::Place(req) if req.page == 0x402000 && req.zeroed));
    assert_eq!(steps.len(), 3);
}

#[test]
fn bad_headers_are_named() {
    let good = image(&[[1, 5, 0, 0x400000, 0x78, 0x78, 4096]], 0x78);
    assert!(matches!(end_of(&good), LoadAction::End(LoadEnd::Loaded(_))));
    assert_eq!(end_of(&good[..63]), failed(ElfError::Truncated));
    let with = |i: usize, b: u8| {
        let mut v = good.clone();
        v[i] = b;
        end_of(&v)
    };
    assert_eq!(with(0, 0), failed(ElfError::BadElf));
    assert_eq!(with(4, 1), failed(ElfError::BadElf));
    assert_eq!(with(5, 2), failed(ElfError::BadElf));
    assert_eq!(with(16, 1), failed(ElfError::NotExecOrDyn));
    assert!(matches!(with(16, 3), LoadAction::End(LoadEnd::Loaded(_))));
    assert_eq!(with(18, 3), failed(ElfError::NotX86_64));
    assert_eq!(with(54, 32), failed(ElfError::UnexpectedPhdrSize));
    assert_eq!(with(56, 2), failed(ElfError::PhdrOob));
    assert_eq!(with(56, 0), failed(ElfError::NoPhdrInLoad));
}

#[test]
fn bad_segments_are_named() {
    let of = |h: [u64; 7]| end_of(&image(&[h], 0x80));
    assert_eq!(
        of([1, 5, 0, 0x400000, 0x80, 0x80, 8]),
        failed(ElfError::UnsupportedAlign)
    );
    assert_eq!(
        of([1, 5, 0, 0x400000, 0x81, 0x81, 0]),
        failed(ElfError::SegmentFileOob)
    );
    assert_eq!(
        of([1, 5, 0x41, 0x400000, 0x10, 0x10, 0]),
        failed(ElfError::NoPhdrInLoad)
    );
    assert_eq!(
        of([1, 5, 0, u64::MAX, 0x10, 0x10, 0]),
        LoadAction::End(LoadEnd::Fault)
    );
    assert_eq!(
        of([1, 5, 0, 0x1_0000_0000_0000, 0x10, 0x10, 0]),
        LoadAction::End(LoadEnd::Fault)
    );
}

#[test]
fn a_load_stops_where_the_machine_stops() {
    let img = image(&[[1, 5, 0, 0x400000, 0x80, 0x2000, 4096]], 0x80);
    let mut none = allocator(0);
    assert_eq!(
        load_elf(&img, 0).start(&mut none),
        LoadAction::Failed(ElfError::FrameOom)
    );
    let mut one = allocator(1);
    let mut loader = load_elf(&img, 0);
    loader.start(&mut one);
    assert_eq!(
        loader.on_mapped(&mut one, MapOutcome::Mapped),
        LoadAction::Failed(ElfError::FrameOom)
    );
    let mut fa = allocator(4);
    let mut loader = load_elf(&img, 0);
    loader.start(&mut fa);
    assert_eq!(
        loader.on_mapped(&mut fa, MapOutcome::AlreadyMapped),
        LoadAction::Failed(ElfError::MapTo)
    );
    let mut loader = load_elf(&img, 0);
    loader.start(&mut fa);
    loader.on_mapped(&mut fa, MapOutcome::Mapped);
    assert!(matches!(
        loader.on_mapped(&mut fa, MapOutcome::Mapped),
        LoadAction::Copy { .. }
    ));
    assert_eq!(
        loader.on_copied(&mut fa, false),
        LoadAction::Failed(ElfError::Translate)
    );
}

#[test]
fn error_messages() {
    let texts = [
        (ElfError::Truncated, "truncated"),
        (ElfError::BadElf, "bad elf"),
        (ElfError::NotExecOrDyn, "not ET_EXEC/ET_DYN"),
        (ElfError::NotX86_64, "not x86-64"),
        (ElfError::UnexpectedPhdrSize, "unexpected phdr size"),
        (ElfError::Allocator, "allocator"),
        (ElfError::PhdrOob, "phdr oob"),
        (ElfError::UnsupportedAlign, "unsupported align"),
        (ElfError::FrameOom, "frame OOM"),
        (ElfError::MapTo, "map_to"),
        (ElfError::SegmentFileOob, "segment file oob"),
        (ElfError::Translate, "translate"),
        (ElfError::NoPhdrInLoad, "no phdr in LOAD"),
        (ElfError::StackOverflow, "stack ovf"),
        (ElfError::NoMap, "no map"),
    ];
    for (e, text) in texts {
        assert_eq!(e.message(), text);
    }
}

#[test]
fn exec_takes_the_old_image_out_first() {
    let mut user = UserImage::new();
    user.image_end = 0x402001;
    let job = unmap_old_image_best_effort(&user);
    assert_eq!(job.start(), PageAction::Translate(0x400000));
    let img = image(&[[1, 5, 0, 0x400000, 0x81, 0x81, 4096]], 0x81);
    let (mut unmap, mut loader) = load_elf_exec(&img, 0, &user);
    assert_eq!(unmap.start(), PageAction::Translate(0x400000));
    assert_eq!(unmap.on_translated(false), PageAction::Translate(0x401000));
    assert_eq!(unmap.on_translated(false), PageAction::Translate(0x402000));
    assert_eq!(unmap.on_translated(false), PageAction::Finished);
    let mut fa = allocator(2);
    assert!(matches!(loader.start(&mut fa), LoadAction::Place(_)));
}

#[test]
fn image_extent_is_at_least_a_page() {
    let mut user = UserImage::new();
    apply_user_meta(&mut user, &META);
    assert_eq!((user.image_end, user.rw_start), (0x401000, 0x401000));
    let big = ElfLoadedMeta {
        image_end: 0x409000,
        rw_min: 0x408000,
        ..META
    };
    apply_user_meta(&mut user, &big);
    assert_eq!((user.image_end, user.rw_start), (0x409000, 0x408000));
}

fn word(stack: &[u8], at: usize) -> u64 {
    u64::from_le_bytes(stack[at..at + 8].try_into().unwrap())
}

fn text_at(stack: &[u8], addr: u64) -> String {
    let from = (addr - 0x401000) as usize;
    let len = stack[from..].iter().position(|b| *b == 0).unwrap();
    String::from_utf8(stack[from..from + len].to_vec()).unwrap()
}

#[test]
fn exec_stack_layout() {
    let argv = vec![String::from("/init"), String::from("-v")];
    let envp = vec![String::from("HOME=/")];
    let args = ExecArgs {
        argv: &argv,
        envp: &envp,
    };
    let stack = build_exec_stack(&META, &args).unwrap();
    assert_eq!(word(&stack, 0), 2);
    assert_eq!(text_at(&stack, word(&stack, 8)), "/init");
    assert_eq!(text_at(&stack, word(&stack, 16)), "-v");
    assert_eq!(word(&stack, 24), 0);
    assert_eq!(text_at(&stack, word(&stack, 32)), "HOME=/");
    assert_eq!(word(&stack, 40), 0);
    let aux: Vec<u64> = (0..12).map(|i| word(&stack, 48 + 8 * i)).collect();
    assert_eq!(
        aux,
        vec![3, 0x400040, 4, 56, 5, 1, 6, 4096, 9, 0x400078, 0, 0]
    );
    // The environment strings come first, at a multiple of 16, each padded to a multiple of 8.
    assert_eq!(word(&stack, 32), 0x401000 + 144);
    assert_eq!(word(&stack, 8), 0x401000 + 152);
    assert_eq!(word(&stack, 16), 0x401000 + 160);
    assert_eq!(stack.len(), 168);
}

#[test]
fn empty_exec_stack() {
    let args = ExecArgs {
        argv: &[],
        envp: &[],
    };
    let stack = build_exec_stack(&META, &args).unwrap();
    assert_eq!(stack.len(), 128);
    assert_eq!(word(&stack, 0), 0);
    assert_eq!(word(&stack, 24), 3);
}

#[test]
fn exec_stack_must_fit_its_page() {
    let fits = vec!["a".repeat(4096 - 144 - 8 - 1), String::from("b")];
    let full = ExecArgs {
        argv: &fits,
        envp: &[],
    };
    assert_eq!(build_exec_stack(&META, &full).unwrap().len(), 4096);
    let more = vec!["a".repeat(4096 - 144 - 8), String::from("b")];
    let args = ExecArgs {
        argv: &more,
        envp: &[],
    };
    assert_eq!(build_exec_stack(&META, &args), Err(ElfError::StackOverflow));
    let many = vec![String::new(); 600];
    let args = ExecArgs {
        argv: &many,
        envp: &[],
    };
    assert_eq!(build_exec_stack(&META, &args), Err(ElfError::StackOverflow));
}

#[test]
fn finishing_exec_notes_the_image() {
    let mut user = UserImage::new();
    let argv = vec![String::from("/init")];
    let args = ExecArgs {
        argv: &argv,
        envp: &[],
    };
    let meta = ElfLoadedMeta {
        image_end: 0x405000,
        ..META
    };
    let start = finish_elf_exec(&mut user, &meta, &args).unwrap();
    assert_eq!((start.entry, start.rsp), (0x400078, 0x401000));
    assert_eq!(word(&start.stack, 0), 1);
    assert_eq!(user.image_end, 0x405000);
    let long = vec!["x".repeat(5000)];
    let args = ExecArgs {
        argv: &long,
        envp: &[],
    };
    assert_eq!(
        finish_elf_exec(&mut user, &META, &args).err(),
        Some(ElfError::StackOverflow)
    );
    assert_eq!(user.image_end, 0x401000);
}

#[test]
fn finishing_a_load_notes_the_image() {
    let mut user = UserImage::new();
    let before = user;
    let failed: Result<ElfLoadedMeta, ElfError> = Err(ElfError::MapTo);
    assert_eq!(finish_elf(&mut user, &failed), Err(ElfError::MapTo));
    assert_eq!((user.image_end, user.rw_start), (before.image_end, before.rw_start));
    let meta = ElfLoadedMeta {
        image_end: 0x405000,
        rw_min: 0x404000,
        ..META
    };
    assert_eq!(finish_elf(&mut user, &Ok(meta)), Ok(0x400078));
    assert_eq!((user.image_end, user.rw_start), (0x405000, 0x404000));
    assert_eq!(user.entry_rip, before.entry_rip);
}

#[test]
fn header_errors_come_before_a_missing_allocator() {
    assert_eq!(error_without_allocator(&[0; 63]), ElfError::Truncated);
    assert_eq!(error_without_allocator(&[0; 64]), ElfError::BadElf);
    assert_eq!(error_without_allocator(&image(&[], 64)), ElfError::Allocator);
}

#[test]
fn the_last_segment_with_the_headers_tells_their_address() {
    let img = image(
        &[
            [1, 6, 0, 0x409000, 0x100, 0x100, 4096],
            [1, 4, 0x10, 0x404010, 0xf0, 0x1f0, 4096],
            [1, 6, 0x100, 0x402100, 0x10, 0x20, 4096],
        ],
        0x200,
    );
    match end_of(&img) {
        LoadAction::End(LoadEnd::Loaded(meta)) => {
            assert_eq!(meta.phdr, 0x404040);
            assert_eq!(meta.image_end, 0x409100);
            assert_eq!(meta.rw_min, 0x402100);
        }
        other => panic!("{other:?}"),
    }
}

#[test]
fn a_loaded_image_stands_in_memory() {
    let mut img = image(
        &[
            [1, 5, 0, 0x400000, 0x100, 0x100, 4096],
            [1, 6, 0x100, 0x401ff0, 0x20, 0x1030, 0],
        ],
        0x200,
    );
    for i in 0x100..0x120 {
        img[i] = i as u8 ^ 0x5a;
    }
    let mut fa = allocator(16);
    let (steps, _) = load(&mut load_elf(&img, 0), &mut fa);
    let mut mem = vec![0xeeu8; 0x4000];
    for step in steps {
        match step {
            LoadAction::Place(req) => {
                let at = (req.page - 0x400000) as usize;
                mem[at..at + 4096].fill(0);
            }
            LoadAction::Copy { va, file_off, len } => {
                for j in 0..len {
                    mem[(va - 0x400000 + j) as usize] = img[(file_off + j) as usize];
                }
            }
            other => panic!("{other:?}"),
        }
    }
    assert_eq!(&mem[..0x100], &img[..0x100]);
    assert_eq!(&mem[0x1ff0..0x2010], &img[0x100..0x120]);
    assert!(mem[0x2010..0x3020].iter().all(|b| *b == 0));
    assert_eq!(mem[0x3fff], 0);
}
