use htipc::memorymappedfile::{
    get_pixel, get_pixels, get_state, header, read, read_array, set_pixel, set_pixels, write_array, Header, MmfError,
};
use htipc::plain::Plain;
use htipc::{get_i32pixel, get_i32pixels, set_i32pixel, set_i32pixels};

const W: usize = 320;
const H: usize = 240;

fn sample_header() -> Header {
    let mut h = Header::default();
    h.size = (W * H) as i32;
    h.typecode = 1;
    h.width = W as i32;
    h.height = H as i32;
    h.depth = 4;
    h
}

/// A region holding `sample_header()` and `W * H` zeroed `i32` pixels.
fn sample_region() -> Vec<u8> {
    let mut view = vec![0u8; 32 + W * H * 4];
    htipc::memorymappedfile::write(&mut view, 0, sample_header()).unwrap();
    view
}

fn words_at(view: &[u8], pos: usize, n: usize) -> Vec<i32> {
    (0..n)
        .map(|i| {
            let k = pos + 4 * i;
            i32::from_le_bytes([view[k], view[k + 1], view[k + 2], view[k + 3]])
        })
        .collect()
}

#[test]
fn it_works_mmf_read() {
    let mut view = sample_region();

    let dst = read::<Header>(&view, 0).unwrap();
    assert_eq!(dst, sample_header());
    let dst = read::<Header>(&view, 2).unwrap();
    assert_eq!(dst.size, 65537);
    assert_eq!(dst.typecode, 20971520);
    assert_eq!(dst.width, 15728640);
    assert_eq!(dst.height, 262144);
    assert_eq!(dst.depth, 0);
    let dst = read::<Header>(&view, 4).unwrap();
    assert_eq!(dst.size, 1);
    assert_eq!(dst.typecode, 320);
    assert_eq!(dst.width, 240);
    assert_eq!(dst.height, 4);

    let mut buf = vec![0i32; 20];
    read_array::<i32>(&view, 0, &mut buf).unwrap();
    let mut before = vec![76800, 1, 320, 240, 4, 0, 0, 0];
    before.extend(vec![0; 12]);
    assert_eq!(buf, before);

    let mut hoge = vec![0i32; W * H];
    for y in 0..H {
        for x in 0..W {
            hoge[x + y * W] = x as i32;
        }
    }
    write_array::<i32>(&mut view, 32, &hoge).unwrap();
    htipc::memorymappedfile::write::<i32>(&mut view, 32, 100).unwrap();

    read_array::<i32>(&view, 0, &mut buf).unwrap();
    let mut expected = vec![76800, 1, 320, 240, 4, 0, 0, 0, 100];
    expected.extend(1..12);
    assert_eq!(buf, expected);

    read_array::<i32>(&view, 32, &mut buf).unwrap();
    let mut expected = vec![100];
    expected.extend(1..20);
    assert_eq!(buf, expected);

    for i in 0..10 {
        let dst = get_pixel::<i32>(&view, i).unwrap();
        assert_eq!(dst, if i == 0 { 100 } else { i as i32 });
    }
}

#[test]
fn core_it_works_mmf() {
    let mut view = sample_region();
    let mut hoge = vec![0i32; W * H];
    for y in 0..H {
        for x in 0..W {
            hoge[x + y * W] = (x % 10) as i32;
        }
    }
    write_array::<i32>(&mut view, 32, &hoge).unwrap();
    assert_eq!(words_at(&view, 32, W * H), hoge);
    assert_eq!(get_i32pixel(&view, 325).unwrap(), 5);
    assert_eq!(get_i32pixel(&view, W * H - 1).unwrap(), 9);
    assert_eq!(get_i32pixel(&view, W * H), Err(MmfError::OutOfBounds));

    let args = htipc::pipe_args::PipeArgs {
        addr: "SimpleGui".to_string(),
        commands: Some(vec!["draw".to_string()]),
        connect_timeout: None,
        read_timeout: None,
        write_timeout: None,
        json: Some(true),
    };
    let req = args.request();
    assert_eq!(req.address, r"\\.\pipe\SimpleGui");
    assert_eq!(req.message, "[\"draw\"]\r\n");
    let unreachable: Result<String, htipc::namedpipe::NamedPipeError> =
        Err(htipc::namedpipe::NamedPipeError::Timeout);
    assert_eq!(htipc::namedpipe::status_word(&unreachable), "ERR");
}

#[test]
fn i32_is_stored_little_endian() {
    let mut view = vec![0u8; 8];
    htipc::memorymappedfile::write::<i32>(&mut view, 2, -2).unwrap();
    assert_eq!(view, vec![0, 0, 0xfe, 0xff, 0xff, 0xff, 0, 0]);
    htipc::memorymappedfile::write::<i32>(&mut view, 0, 0x01020304).unwrap();
    assert_eq!(view, vec![4, 3, 2, 1, 0xff, 0xff, 0, 0]);
    assert_eq!(read::<i32>(&view, 2).unwrap(), -65278);
    assert_eq!(read::<u8>(&view, 1).unwrap(), 3);
    assert_eq!(<i32 as Plain>::size(), 4);
    assert_eq!(<Header as Plain>::size(), 32);
}

#[test]
fn out_of_bounds_changes_nothing() {
    let mut view = vec![7u8; 10];
    assert_eq!(read::<i32>(&view, 7), Err(MmfError::OutOfBounds));
    assert_eq!(read::<i32>(&view, usize::MAX), Err(MmfError::OutOfBounds));
    assert_eq!(read::<i32>(&view, 6).unwrap(), 0x07070707);
    assert_eq!(htipc::memorymappedfile::write::<i32>(&mut view, 7, 1), Err(MmfError::OutOfBounds));
    assert_eq!(view, vec![7u8; 10]);
    assert_eq!(read::<Header>(&view, 0), Err(MmfError::OutOfBounds));
    assert_eq!(header(&view), Err(MmfError::OutOfBounds));

    let mut dst = vec![1i32, 2, 3];
    assert_eq!(read_array::<i32>(&view, 0, &mut dst), Err(MmfError::OutOfBounds));
    assert_eq!(dst, vec![1, 2, 3]);
    assert_eq!(write_array::<i32>(&mut view, 0, &dst), Err(MmfError::OutOfBounds));
    assert_eq!(view, vec![7u8; 10]);
    assert_eq!(write_array::<i32>(&mut view, 0, &vec![9, 9]), Ok(()));
    assert_eq!(view, vec![9, 0, 0, 0, 9, 0, 0, 0, 7, 7]);
}

#[test]
fn read_after_write_gives_value_back() {
    let mut view = sample_region();
    for (pos, v) in [(0usize, -1i32), (33, 12345), (1000, i32::MIN), (307228, i32::MAX)] {
        htipc::memorymappedfile::write::<i32>(&mut view, pos, v).unwrap();
        assert_eq!(read::<i32>(&view, pos).unwrap(), v);
    }
}

#[test]
fn pixels_follow_the_header_depth() {
    let mut view = sample_region();
    set_pixel::<i32>(&mut view, 3, 77).unwrap();
    assert_eq!(words_at(&view, 32 + 3 * 4, 1), vec![77]);
    assert_eq!(get_pixel::<i32>(&view, 3).unwrap(), 77);
    assert_eq!(header(&view).unwrap(), sample_header());

    // With a depth of 2 the pixels overlap, two bytes apart.
    let mut h = sample_header();
    h.depth = 2;
    htipc::memorymappedfile::write(&mut view, 0, h).unwrap();
    set_pixel::<u8>(&mut view, 10, 5).unwrap();
    assert_eq!(view[32 + 20], 5);
    assert_eq!(get_pixel::<u8>(&view, 10).unwrap(), 5);

    // A negative depth reaches past any region, except at pixel 0.
    h.depth = -1;
    htipc::memorymappedfile::write(&mut view, 0, h).unwrap();
    assert_eq!(get_pixel::<i32>(&view, 1), Err(MmfError::OutOfBounds));
    assert_eq!(get_pixel::<i32>(&view, 0).unwrap(), 0);
    assert_eq!(set_pixel::<i32>(&mut view, 5, 1), Err(MmfError::OutOfBounds));

    // A region too short for a header has no pixels.
    let short = vec![0u8; 31];
    assert_eq!(get_pixel::<u8>(&short, 0), Err(MmfError::OutOfBounds));
}

#[test]
fn pixel_runs_round_trip() {
    let mut view = sample_region();
    let mut src = vec![3i32, -4, 5];
    set_pixels::<i32>(&mut view, 100, &src).unwrap();
    let mut dst = vec![0i32; 3];
    get_pixels::<i32>(&view, 100, &mut dst).unwrap();
    assert_eq!(dst, src);

    set_i32pixels(&mut view, 200, &mut src).unwrap();
    assert_eq!(src, vec![3, -4, 5]);
    let mut dst = vec![0i32; 4];
    get_i32pixels(&view, 199, &mut dst).unwrap();
    assert_eq!(dst, vec![0, 3, -4, 5]);

    set_i32pixel(&mut view, 0, 42).unwrap();
    assert_eq!(get_i32pixel(&view, 0).unwrap(), 42);

    let mut too_many = vec![0i32; 3];
    assert_eq!(
        get_i32pixels(&view, W * H - 2, &mut too_many),
        Err(MmfError::OutOfBounds)
    );
    assert_eq!(too_many, vec![0, 0, 0]);
    let before = view.clone();
    assert_eq!(
        set_i32pixels(&mut view, W * H - 2, &mut vec![1, 2, 3]),
        Err(MmfError::OutOfBounds)
    );
    assert_eq!(view, before);
    assert_eq!(htipc::header(&view).unwrap().width, 320);
}

#[test]
fn state_is_the_three_leading_words() {
    let view = sample_region();
    assert_eq!(get_state(&view).unwrap(), (76800, 1, 320));
    assert_eq!(get_state(&view[..11]), Err(MmfError::OutOfBounds));
}

#[test]
fn full_frame_reads_size_pixels() {
    let mut view = vec![0u8; 32 + 6 * 4];
    let mut h = Header::default();
    h.size = 6;
    h.width = 3;
    h.height = 2;
    h.depth = 4;
    htipc::memorymappedfile::write(&mut view, 0, h).unwrap();
    write_array::<i32>(&mut view, 32, &vec![1, 2, 3, 4, 5, 6]).unwrap();
    let (px, head) = htipc::memorymappedfile::get_pixels_fullarray(&view).unwrap();
    assert_eq!(px, vec![1, 2, 3, 4, 5, 6]);
    assert_eq!((head.width, head.height), (3, 2));

    h.size = 7;
    htipc::memorymappedfile::write(&mut view, 0, h).unwrap();
    assert_eq!(
        htipc::memorymappedfile::get_pixels_fullarray(&view).err(),
        Some(MmfError::OutOfBounds)
    );
    h.size = -1;
    htipc::memorymappedfile::write(&mut view, 0, h).unwrap();
    assert_eq!(
        htipc::memorymappedfile::get_pixels_fullarray(&view).err(),
        Some(MmfError::OutOfBounds)
    );
    h.size = i32::MAX;
    htipc::memorymappedfile::write(&mut view, 0, h).unwrap();
    assert_eq!(
        htipc::memorymappedfile::get_pixels_fullarray(&view).err(),
        Some(MmfError::OutOfBounds)
    );
}

#[test]
fn writes_touch_only_their_slot() {
    let mut view: Vec<u8> = (0..16).collect();
    htipc::memorymappedfile::write::<i32>(&mut view, 5, 0).unwrap();
    assert_eq!(view, vec![0, 1, 2, 3, 4, 0, 0, 0, 0, 9, 10, 11, 12, 13, 14, 15]);
    // Writing back what was read changes nothing.
    let before = view.clone();
    let v = read::<Header>(&view, 0).err();
    assert_eq!(v, Some(MmfError::OutOfBounds));
    let w = read::<i32>(&view, 9).unwrap();
    htipc::memorymappedfile::write::<i32>(&mut view, 9, w).unwrap();
    assert_eq!(view, before);
}

#[test]
fn setting_pixels_keeps_the_header() {
    let mut view = sample_region();
    set_pixels::<i32>(&mut view, 0, &vec![-1; 50]).unwrap();
    set_pixel::<i32>(&mut view, 7, -7).unwrap();
    assert_eq!(header(&view).unwrap(), sample_header());
}

#[test]
fn it_works_header() {
    let mut view = sample_region();
    let h = htipc::header(&view).unwrap();
    assert_eq!(h, sample_header());
    assert_eq!(h.size, 76800);
    assert_eq!(get_i32pixel(&view, 0).unwrap(), 0);
    assert_eq!(get_i32pixel(&view, 1).unwrap(), 0);
    assert_eq!(get_i32pixel(&view, 2).unwrap(), 0);

    set_i32pixel(&mut view, 0, 20).unwrap();
    set_i32pixel(&mut view, 1, 19).unwrap();
    set_i32pixel(&mut view, 2, 18).unwrap();
    assert_eq!(get_i32pixel(&view, 0).unwrap(), 20);
    assert_eq!(get_i32pixel(&view, 1).unwrap(), 19);
    assert_eq!(get_i32pixel(&view, 2).unwrap(), 18);

    let mut list = vec![30, 35];
    set_i32pixels(&mut view, 0, &mut list).unwrap();
    assert_eq!(get_i32pixel(&view, 0).unwrap(), 30);
    assert_eq!(get_i32pixel(&view, 1).unwrap(), 35);
    assert_eq!(get_i32pixel(&view, 2).unwrap(), 18);

    let mut dst = vec![0i32; 10];
    get_i32pixels(&view, 0, &mut dst).unwrap();
    assert_eq!(dst, vec![30, 35, 18, 0, 0, 0, 0, 0, 0, 0]);
}
