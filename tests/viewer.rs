use image::AnimationDecoder;
use imgview::binds::{Action, Binds, Key};
use imgview::frames::{Frame, Image, ImageSet, Raster, MIN_FRAME_DELAY_MS};
use imgview::input::{ControlSignal, Input, KeyEvent, Response};
use imgview::loader::{
    animation, choose_decoding, DirEntry, Decoding, Direction, EntryKind, ImageLoader, ImageLoaderError, PathInput, PathKind,
};
use imgview::view::{fit_to, FitScale, MatrixOp, ViewTransform};

fn file(path: &str) -> PathInput {
    PathInput { path: path.to_string(), kind: PathKind::File }
}

/// An entry whose leading bytes carry the signature its extension suggests.
fn entry(path: &str, kind: EntryKind, depth: usize) -> DirEntry {
    let lower = path.to_lowercase();
    let leading: &[u8] = if lower.ends_with(".png") {
        b"\x89PNG\r\n\x1a\n...."
    } else if lower.ends_with(".jpg") {
        &[0xff, 0xd8, 0xff, 0xe0]
    } else if lower.ends_with(".gif") {
        b"GIF89a...."
    } else if lower.ends_with(".bmp") {
        b"BM......"
    } else {
        b"some plain text"
    };
    DirEntry { path: path.to_string(), kind, depth, probe: Some(leading.to_vec()) }
}

/// Decodes the way the viewer does: the library chooses how, the image
/// crate decodes.
fn load_image(path: &str, bytes: &[u8]) -> Result<ImageSet, ImageLoaderError> {
    let wrap = |e: image::ImageError| ImageLoaderError::ImageError(Box::new(e));
    let still = |img: image::DynamicImage| {
        let b = img.to_rgba8();
        Raster { width: b.width(), height: b.height(), pixels: b.into_raw() }
    };
    match choose_decoding(path, bytes)? {
        Decoding::Animation => {
            let d = image::gif::GifDecoder::new(std::io::Cursor::new(bytes)).map_err(wrap)?;
            let frames = d.into_frames().collect_frames().map_err(wrap)?;
            animation(
                frames
                    .into_iter()
                    .map(|f| {
                        let (n, den) = f.delay().numer_denom_ms();
                        Frame { raster: still(image::DynamicImage::ImageRgba8(f.into_buffer())), delay_numer: n, delay_denom: den }
                    })
                    .collect(),
            )
        }
        Decoding::Still => Ok(ImageSet::Still(still(image::load_from_memory(bytes).map_err(wrap)?))),
        Decoding::StillAsPathFormat => {
            let f = image::ImageFormat::from_path(path).map_err(wrap)?;
            Ok(ImageSet::Still(still(image::load_from_memory_with_format(bytes, f).map_err(wrap)?)))
        }
    }
}

fn probed(path: &str, depth: usize, probe: Option<Vec<u8>>) -> DirEntry {
    DirEntry { path: path.to_string(), kind: EntryKind::File, depth, probe }
}

fn view_op(r: Response) -> Option<MatrixOp> {
    match r {
        Response::View(op) => Some(op),
        _ => None,
    }
}

fn dir(path: &str, entries: Vec<DirEntry>) -> PathInput {
    PathInput { path: path.to_string(), kind: PathKind::Directory(Some(entries)) }
}

fn paths_of(loader: &ImageLoader) -> Vec<String> {
    (0..loader.len()).map(|i| loader.path(i).clone()).collect()
}

fn raster(w: u32, h: u32, fill: u8) -> Raster {
    Raster { width: w, height: h, pixels: vec![fill; (w * h * 4) as usize] }
}

fn frame(delay_numer: u32, delay_denom: u32) -> Frame {
    Frame { raster: raster(1, 1, 0), delay_numer, delay_denom }
}

fn gif_bytes(n: usize) -> Vec<u8> {
    let mut buf: Vec<u8> = Vec::new();
    {
        let mut encoder = image::gif::GifEncoder::new(&mut buf);
        for i in 0..n {
            let img = image::RgbaImage::from_pixel(2, 2, image::Rgba([(i * 60) as u8, 10, 20, 255]));
            let f = image::Frame::from_parts(img, 0, 0, image::Delay::from_numer_denom_ms(100, 1));
            encoder.encode_frame(f).unwrap();
        }
    }
    buf
}

fn png_bytes() -> Vec<u8> {
    let mut buf: Vec<u8> = Vec::new();
    let pixels = vec![200u8; 3 * 2 * 4];
    image::png::PngEncoder::new(&mut buf).encode(&pixels, 3, 2, image::ColorType::Rgba8).unwrap();
    buf
}

#[test]
fn default_binds_resolve_characters() {
    let binds = Binds::default();
    assert!(matches!(binds.get_action_char('n'), Some(Action::NextImage)));
    assert!(matches!(binds.get_action_char('='), Some(Action::Reset)));
    assert!(matches!(binds.get_action_char('>'), Some(Action::RotateRight)));
    assert!(binds.get_action_char('x').is_none());
    assert!(binds.get_action(Key(3)).is_none());
}

#[test]
fn first_matching_row_wins() {
    let binds = Binds::from_table(vec![
        (Some('a'), Some(Key(7)), Action::ZoomIn),
        (Some('a'), None, Action::ZoomOut),
        (None, Some(Key(7)), Action::Quit),
    ]);
    assert_eq!(binds.get_action_char('a'), Some(Action::ZoomIn));
    assert_eq!(binds.get_action(Key(7)), Some(Action::ZoomIn));
    assert_eq!(binds.get_action(Key(8)), None);
}

#[test]
fn characters_map_to_view_operations() {
    let input = Input::new(&Binds::default());
    let loader = loader_of(3);
    let mut signal = ControlSignal::Continue;
    assert_eq!(view_op(input.handle_char('+', &loader, &mut signal)), Some(MatrixOp::Scale { numer: 2, denom: 1 }));
    assert_eq!(view_op(input.handle_char('-', &loader, &mut signal)), Some(MatrixOp::Scale { numer: 1, denom: 2 }));
    assert_eq!(view_op(input.handle_char('h', &loader, &mut signal)), Some(MatrixOp::Translate { x: 1, y: 0 }));
    assert_eq!(view_op(input.handle_char('k', &loader, &mut signal)), Some(MatrixOp::Translate { x: 0, y: -1 }));
    assert_eq!(view_op(input.handle_char('<', &loader, &mut signal)), Some(MatrixOp::Rotate { quarter_turns: 1 }));
    assert_eq!(view_op(input.handle_char('=', &loader, &mut signal)), Some(MatrixOp::Reset));
    assert!(matches!(input.handle_char('f', &loader, &mut signal), Response::ToggleFullscreen));
    assert_eq!(signal, ControlSignal::Continue);
}

#[test]
fn navigation_keys_begin_a_move() {
    let input = Input::new(&Binds::default());
    let loader = loader_of(3);
    let mut signal = ControlSignal::Continue;
    match input.handle_char('n', &loader, &mut signal) {
        Response::Navigate(m) => {
            assert_eq!(m.candidate(), Some(0));
            assert!(!m.moved());
        }
        _ => panic!("expected a move"),
    }
    assert_eq!(signal, ControlSignal::Continue);
}

#[test]
fn quit_sets_the_signal() {
    let input = Input::new(&Binds::default());
    let loader = loader_of(1);
    let mut signal = ControlSignal::Continue;
    assert!(matches!(input.handle_char('q', &loader, &mut signal), Response::Quit));
    assert_eq!(signal, ControlSignal::Quit);
}

#[test]
fn unbound_input_is_not_consumed() {
    let input = Input::new(&Binds::default());
    let loader = loader_of(1);
    let mut signal = ControlSignal::Continue;
    assert!(matches!(input.handle_char('z', &loader, &mut signal), Response::NotConsumed));
    assert_eq!(signal, ControlSignal::Continue);
}

#[test]
fn key_events_need_a_press_of_a_bound_key() {
    let binds = Binds::from_table(vec![(None, Some(Key(40)), Action::MoveDown)]);
    let input = Input::new(&binds);
    let loader = loader_of(1);
    let mut signal = ControlSignal::Continue;
    let press = KeyEvent { key: Some(Key(40)), pressed: true };
    let release = KeyEvent { key: Some(Key(40)), pressed: false };
    let unknown = KeyEvent { key: None, pressed: true };
    assert_eq!(view_op(input.handle(&press, &loader, &mut signal)), Some(MatrixOp::Translate { x: 0, y: 1 }));
    assert!(matches!(input.handle(&release, &loader, &mut signal), Response::NotConsumed));
    assert!(matches!(input.handle(&unknown, &loader, &mut signal), Response::NotConsumed));
}

#[test]
fn fit_shrinks_wide_content() {
    let s = fit_to(800, 600, 1600, 300);
    assert_eq!(s, FitScale { numer: 800, denom: 1600 });
    assert!(s.numer <= s.denom);
    assert!(1600 * s.numer <= 800 * s.denom);
    assert!(300 * s.numer <= 600 * s.denom);
}

#[test]
fn fit_never_enlarges() {
    assert_eq!(fit_to(800, 600, 400, 300), FitScale { numer: 1, denom: 1 });
}

#[test]
fn fit_uses_the_tighter_axis() {
    assert_eq!(fit_to(800, 600, 800, 1200), FitScale { numer: 600, denom: 1200 });
    assert_eq!(fit_to(800, 600, 1600, 1800), FitScale { numer: 600, denom: 1800 });
}

#[test]
fn still_image_has_no_timer() {
    let mut img = Image::new(ImageSet::Still(raster(2, 2, 1)), 50);
    assert!(!img.is_animated());
    assert_eq!(img.frame_count(), 1);
    assert_eq!(img.time_next_frame(), None);
    assert!(!img.advance_if_due(u64::MAX));
    assert_eq!(img.current_frame(), 0);
}

#[test]
fn next_frame_time_uses_the_delay() {
    let img = Image::new(ImageSet::Animated(vec![frame(250, 2), frame(0, 1)]), 1000);
    assert_eq!(img.time_next_frame(), Some(1125));
}

#[test]
fn zero_delay_uses_the_minimum() {
    let mut img = Image::new(ImageSet::Animated(vec![frame(0, 1), frame(3, 1), frame(7, 0)]), 0);
    assert_eq!(img.time_next_frame(), Some(MIN_FRAME_DELAY_MS));
    img.next_frame(100);
    assert_eq!(img.time_next_frame(), Some(100 + MIN_FRAME_DELAY_MS));
    img.next_frame(200);
    assert_eq!(img.time_next_frame(), Some(200 + MIN_FRAME_DELAY_MS));
}

#[test]
fn frames_wrap_to_the_first() {
    let mut img = Image::new(ImageSet::Animated(vec![frame(10, 1), frame(10, 1), frame(10, 1)]), 0);
    img.next_frame(1);
    img.next_frame(2);
    assert_eq!(img.current_frame(), 2);
    img.next_frame(3);
    assert_eq!(img.current_frame(), 0);
}

#[test]
fn advance_waits_until_due() {
    let mut img = Image::new(ImageSet::Animated(vec![frame(40, 1), frame(60, 1)]), 100);
    assert!(!img.advance_if_due(139));
    assert_eq!(img.current_frame(), 0);
    assert!(img.advance_if_due(140));
    assert_eq!(img.current_frame(), 1);
    assert_eq!(img.time_next_frame(), Some(200));
}

#[test]
fn late_advance_takes_one_step() {
    let mut img = Image::new(ImageSet::Animated(vec![frame(10, 1), frame(10, 1), frame(10, 1)]), 0);
    assert!(img.advance_if_due(1_000_000));
    assert_eq!(img.current_frame(), 1);
    assert_eq!(img.time_next_frame(), Some(1_000_010));
    assert!(!img.advance_if_due(1_000_000));
    assert_eq!(img.current_frame(), 1);
}

#[test]
fn timer_past_the_clock_is_none() {
    let mut img = Image::new(ImageSet::Animated(vec![frame(50, 1), frame(50, 1)]), u64::MAX - 5);
    assert_eq!(img.time_next_frame(), None);
    assert!(!img.advance_if_due(u64::MAX));
}

#[test]
fn collect_scenario() {
    let inputs = vec![
        file("/a.png"),
        PathInput { path: "/missing.png".to_string(), kind: PathKind::Missing },
        dir(
            "/dir",
            vec![
                probed("/dir/b.gif", 0, Some(gif_bytes(3)[..16].to_vec())),
                probed("/dir/c.txt", 0, Some(b"just some notes".to_vec())),
            ],
        ),
    ];
    let loader = ImageLoader::from_paths(&inputs, false).ok().unwrap();
    assert_eq!(paths_of(&loader), vec!["/a.png".to_string(), "/dir/b.gif".to_string()]);
    assert_eq!(loader.current(), None);
    match load_image("/dir/b.gif", &gif_bytes(3)) {
        Ok(ImageSet::Animated(frames)) => {
            assert_eq!(frames.len(), 3);
            assert_eq!(frames[0].raster.width, 2);
            assert_eq!(frames[1].raster.pixels.len(), 16);
        }
        _ => panic!("expected an animation"),
    }
}

fn nested_walk() -> Vec<DirEntry> {
    vec![
        entry("/d/x.png", EntryKind::File, 0),
        entry("/d/notes.txt", EntryKind::File, 0),
        entry("/d/sub", EntryKind::Dir, 0),
        entry("/d/sub/y.JPG", EntryKind::File, 1),
        entry("/d/sub/deeper", EntryKind::Dir, 1),
        entry("/d/sub/deeper/z.gif", EntryKind::File, 2),
        entry("/d/sub/deeper/raw.bin", EntryKind::File, 2),
        entry("/d/w.bmp", EntryKind::File, 0),
        entry("/d/link.png", EntryKind::Other, 0),
    ]
}

#[test]
fn shallow_scan_keeps_top_level_images() {
    let found = ImageLoader::find_images(&nested_walk(), false);
    assert_eq!(found, vec!["/d/x.png".to_string(), "/d/w.bmp".to_string()]);
}

#[test]
fn recursive_scan_keeps_images_at_any_depth() {
    let found = ImageLoader::find_images(&nested_walk(), true);
    assert_eq!(
        found,
        vec![
            "/d/x.png".to_string(),
            "/d/sub/y.JPG".to_string(),
            "/d/sub/deeper/z.gif".to_string(),
            "/d/w.bmp".to_string(),
        ]
    );
}

#[test]
fn images_are_told_by_signature() {
    let png = png_bytes()[..16].to_vec();
    assert_eq!(ImageLoader::is_image(&probed("/x/shot.dat", 0, Some(png))).ok(), Some(true));
    assert_eq!(ImageLoader::is_image(&probed("/x/anim", 0, Some(b"GIF89a....".to_vec()))).ok(), Some(true));
    assert_eq!(ImageLoader::is_image(&probed("photo.PNG", 0, Some(b"text".to_vec()))).ok(), Some(false));
    assert_eq!(ImageLoader::is_image(&probed("old.tga", 0, Some(vec![0, 0, 2, 0]))).ok(), Some(false));
    assert_eq!(ImageLoader::is_image(&probed("c.txt", 0, Some(b"hello".to_vec()))).ok(), Some(false));
    assert_eq!(ImageLoader::is_image(&probed("noextension", 0, Some(vec![]))).ok(), Some(false));
}

#[test]
fn unreadable_files_are_an_error_and_skipped() {
    let locked = probed("/x/locked.png", 0, None);
    assert!(matches!(ImageLoader::is_image(&locked), Err(ImageLoaderError::InvalidPath(p)) if p == "/x/locked.png"));
    let found = ImageLoader::find_images(&vec![locked, entry("/x/ok.png", EntryKind::File, 0)], false);
    assert_eq!(found, vec!["/x/ok.png".to_string()]);
}

#[test]
fn nothing_collected_is_an_error() {
    let inputs = vec![
        PathInput { path: "/nope".to_string(), kind: PathKind::Missing },
        PathInput { path: "/locked".to_string(), kind: PathKind::Directory(None) },
        PathInput { path: "/dev/null".to_string(), kind: PathKind::Other },
        dir("/empty", vec![entry("/empty/readme.md", EntryKind::File, 0)]),
    ];
    assert!(matches!(ImageLoader::from_paths(&inputs, true), Err(ImageLoaderError::NoImageFound)));
    assert!(matches!(ImageLoader::from_paths(&vec![], false), Err(ImageLoaderError::NoImageFound)));
}

#[test]
fn repeated_paths_are_collected_once() {
    let inputs = vec![
        file("/d/x.png"),
        dir("/d", vec![entry("/d/x.png", EntryKind::File, 0), entry("/d/y.png", EntryKind::File, 0)]),
        file("/d/y.png"),
    ];
    let loader = ImageLoader::from_paths(&inputs, false).ok().unwrap();
    assert_eq!(paths_of(&loader), vec!["/d/x.png".to_string(), "/d/y.png".to_string()]);
}

#[test]
fn given_files_are_kept_whatever_their_name() {
    let loader = ImageLoader::from_paths(&vec![file("/tmp/picture")], false).ok().unwrap();
    assert_eq!(paths_of(&loader), vec!["/tmp/picture".to_string()]);
}

fn loader_of(n: usize) -> ImageLoader {
    let inputs: Vec<PathInput> = (0..n).map(|i| file(&format!("/p/{}.png", i))).collect();
    ImageLoader::from_paths(&inputs, false).ok().unwrap()
}

/// Runs one move the way the event loop does, with `ok` telling which
/// paths decode; returns whether it was consumed.
fn run_move(loader: &mut ImageLoader, dir: Direction, ok: &[bool]) -> bool {
    let mut m = loader.begin_move(dir);
    while let Some(k) = m.candidate() {
        loader.after_attempt(&mut m, ok[k]);
    }
    m.moved()
}

#[test]
fn first_move_starts_at_the_first_path() {
    let loader = loader_of(3);
    assert_eq!(loader.iterate(None, Direction::Forward), Some(0));
    assert_eq!(loader.iterate(None, Direction::Backward), Some(0));
    assert_eq!(loader.iterate(Some(1), Direction::Forward), Some(2));
    assert_eq!(loader.iterate(Some(1), Direction::Backward), Some(0));
    assert_eq!(loader.iterate(Some(0), Direction::Backward), None);
    assert_eq!(loader.iterate(Some(2), Direction::Forward), None);
}

#[test]
fn forward_then_back_returns() {
    let ok = [true, false, false, true, true];
    let mut loader = loader_of(5);
    assert!(run_move(&mut loader, Direction::Forward, &ok));
    assert_eq!(loader.current(), Some(0));
    assert!(run_move(&mut loader, Direction::Forward, &ok));
    assert_eq!(loader.current(), Some(3));
    assert!(run_move(&mut loader, Direction::Backward, &ok));
    assert_eq!(loader.current(), Some(0));
    assert_eq!(loader.path(0), "/p/0.png");
}

#[test]
fn next_at_the_end_changes_nothing() {
    let ok = [true, true];
    let mut loader = loader_of(2);
    run_move(&mut loader, Direction::Forward, &ok);
    run_move(&mut loader, Direction::Forward, &ok);
    assert_eq!(loader.current(), Some(1));
    let input = Input::new(&Binds::default());
    let mut signal = ControlSignal::Continue;
    assert!(matches!(input.handle_char('n', &loader, &mut signal), Response::NotConsumed));
    assert_eq!(loader.current(), Some(1));
    assert_eq!(signal, ControlSignal::Continue);
}

#[test]
fn next_past_undecodable_files_is_not_consumed() {
    let ok = [true, true, false, false];
    let mut loader = loader_of(4);
    run_move(&mut loader, Direction::Forward, &ok);
    run_move(&mut loader, Direction::Forward, &ok);
    let input = Input::new(&Binds::default());
    let mut signal = ControlSignal::Continue;
    match input.handle_char('n', &loader, &mut signal) {
        Response::Navigate(mut m) => {
            assert_eq!(m.candidate(), Some(2));
            loader.after_attempt(&mut m, false);
            assert_eq!(m.candidate(), Some(3));
            loader.after_attempt(&mut m, false);
            assert_eq!(m.candidate(), None);
            assert!(!m.moved());
        }
        _ => panic!("expected a move"),
    }
    assert_eq!(loader.current(), Some(1));
}

#[test]
fn previous_at_the_start_changes_nothing() {
    let ok = [false, true, true];
    let mut loader = loader_of(3);
    assert!(run_move(&mut loader, Direction::Forward, &ok));
    assert_eq!(loader.current(), Some(1));
    assert!(!run_move(&mut loader, Direction::Backward, &ok));
    assert_eq!(loader.current(), Some(1));
}

#[test]
fn still_images_decode_to_one_raster() {
    match load_image("/p/still.png", &png_bytes()) {
        Ok(ImageSet::Still(r)) => {
            assert_eq!((r.width, r.height), (3, 2));
            assert_eq!(r.pixels.len(), 24);
            assert_eq!(r.pixels[0], 200);
        }
        _ => panic!("expected a still image"),
    }
}

#[test]
fn gif_frames_keep_their_delay() {
    match load_image("/p/anim.gif", &gif_bytes(2)) {
        Ok(ImageSet::Animated(frames)) => {
            assert_eq!(frames.len(), 2);
            let img = Image::new(ImageSet::Animated(frames), 0);
            assert_eq!(img.time_next_frame(), Some(100));
        }
        _ => panic!("expected an animation"),
    }
}

#[test]
fn unknown_bytes_are_an_image_error() {
    assert!(matches!(load_image("notes.txt", b"plain text, not an image"), Err(ImageLoaderError::ImageError(_))));
    assert!(matches!(load_image("empty", &[]), Err(ImageLoaderError::ImageError(_))));
    assert!(matches!(load_image("broken.png", b"plain text"), Err(ImageLoaderError::ImageError(_))));
}

#[test]
fn truncated_gif_is_an_image_error() {
    let bytes = gif_bytes(2);
    assert!(matches!(load_image("cut.gif", &bytes[..12]), Err(ImageLoaderError::ImageError(_))));
}

#[test]
fn view_transform_records_operations() {
    let mut view = ViewTransform::new();
    assert!(view.operations().is_empty());
    view.translate(1, 0);
    view.scale(2, 1);
    view.rotate(-1);
    assert_eq!(
        view.operations(),
        &vec![
            MatrixOp::Translate { x: 1, y: 0 },
            MatrixOp::Scale { numer: 2, denom: 1 },
            MatrixOp::Rotate { quarter_turns: -1 },
        ]
    );
    view.apply(MatrixOp::Scale { numer: 1, denom: 2 });
    assert_eq!(view.operations().len(), 4);
}

#[test]
fn reset_returns_to_identity() {
    let mut view = ViewTransform::new();
    view.scale(2, 1);
    view.translate(0, -1);
    view.reset_to_identity();
    assert!(view.operations().is_empty());
    view.rotate(1);
    view.apply(MatrixOp::Reset);
    assert!(view.operations().is_empty());
}

#[test]
fn animation_needs_a_frame() {
    assert!(matches!(animation(vec![]), Err(ImageLoaderError::EmptyAnimation)));
    match animation(vec![frame(20, 1), frame(30, 1)]) {
        Ok(ImageSet::Animated(frames)) => assert_eq!(frames.len(), 2),
        _ => panic!("expected an animation"),
    }
}

fn tga_bytes() -> Vec<u8> {
    // An uncompressed true-colour TGA of 2 by 1 pixels, 24 bits, top-left origin.
    let mut b = vec![0u8, 0, 2, 0, 0, 0, 0, 0, 0, 0, 0, 0, 2, 0, 1, 0, 24, 0x20];
    b.extend_from_slice(&[255, 0, 0, 0, 255, 0]);
    b
}

#[test]
fn formats_without_signature_decode_by_extension() {
    match load_image("/p/old.tga", &tga_bytes()) {
        Ok(ImageSet::Still(r)) => {
            assert_eq!((r.width, r.height), (2, 1));
            assert_eq!(&r.pixels[..4], &[0, 0, 255, 255]);
        }
        _ => panic!("expected a still image"),
    }
    assert!(matches!(load_image("/p/old.bin", &tga_bytes()), Err(ImageLoaderError::ImageError(_))));
}

#[test]
fn signature_wins_over_extension() {
    match load_image("/p/misnamed.tga", &png_bytes()) {
        Ok(ImageSet::Still(r)) => assert_eq!((r.width, r.height), (3, 2)),
        _ => panic!("expected a still image"),
    }
}

#[test]
fn decoding_is_chosen_by_signature_then_extension() {
    assert_eq!(choose_decoding("/p/a.png", &gif_bytes(1)).ok(), Some(Decoding::Animation));
    assert_eq!(choose_decoding("/p/a.gif", &png_bytes()).ok(), Some(Decoding::Still));
    assert_eq!(choose_decoding("/p/a.tga", &tga_bytes()).ok(), Some(Decoding::StillAsPathFormat));
    assert_eq!(choose_decoding("/p/a.GIF", b"no signature here").ok(), Some(Decoding::Animation));
    assert!(matches!(choose_decoding("/p/a.txt", b"no signature here"), Err(ImageLoaderError::ImageError(_))));
}
