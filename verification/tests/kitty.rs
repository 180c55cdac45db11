use lazycard::kitty::{parse_cell_size, Area, CellSize, CellSizeError, Dimensions, ResizeMode};
use lazycard::kitty_cmd::{delete_all, delete_id, delete_range, encode_commands, placement, push_chunks, transmit_headers, Base64, Deflate, Frame, CHUNK_SIZE};
use lazycard::geometry::Rect;

#[test]
fn cell_size_from_answer() {
    let c = parse_cell_size("\x1b[6;20;10t").unwrap();
    assert_eq!((c.width, c.height), (10, 20));
    let c = parse_cell_size("\x1b[6;33;16t\x1b[0m").unwrap();
    assert_eq!((c.width, c.height), (16, 33));
}

#[test]
fn cell_size_answer_errors() {
    for bad in ["", "\x1b[6;20", "\x1b[6;x;10t", "\x1b[6;20;10"] {
        match parse_cell_size(bad) {
            Err(CellSizeError::Parsing(m)) => {
                assert_eq!(m, format!("unknown height and width from \"{bad}\""))
            }
            _ => panic!("expected a parsing error for {bad:?}"),
        }
    }
}

#[test]
fn cells_and_pixels() {
    let c = CellSize::default();
    assert_eq!((c.width, c.height), (10, 20));
    assert_eq!(c.width(3), 30);
    assert_eq!(c.height(2), 40);
    assert_eq!(c.columns(30), 3);
    assert_eq!(c.columns(31), 4);
    assert_eq!(c.rows(0), 0);
    assert_eq!(c.rows(41), 3);
    let d = c.dimensions(Rect::new(0, 0, 4, 5));
    assert_eq!((d.width, d.height), (40, 100));
    let a = c.area(Dimensions::from_tuple((25, 20)));
    assert_eq!(a, Area::new(3, 1));
    assert_eq!(a.with_rows(7), Area::new(3, 7));
    assert_eq!(Dimensions::from_tuple((1, 2)).with_width(9), Dimensions { width: 9, height: 2 });
    assert_eq!(ResizeMode::default(), ResizeMode::Fit);
}

#[test]
fn delete_commands() {
    assert_eq!(delete_id(7), "\x1b_Ga=d,d=i,i=7,q=2\x1b\\");
    assert_eq!(delete_range(90, 95), "\x1b_Ga=d,d=r,x=90,y=95,q=2\x1b\\");
    assert_eq!(delete_all(), "\x1b_Ga=d,d=a,q=2\x1b\\");
}

#[test]
fn image_headers() {
    let (root, chunk) = transmit_headers(Dimensions { width: 3, height: 4 }, 91);
    assert_eq!(root, "a=t,f=32,s=3,v=4,t=d,i=91,o=z,q=2");
    assert_eq!(chunk, "i=91,q=2");
}

#[test]
fn short_data_is_one_chunk() {
    let mut out = String::new();
    push_chunks(&mut out, "R", "C", "abc");
    assert_eq!(out, "\x1b_GR;abc\x1b\\");
}

#[test]
fn long_data_is_split_in_chunks() {
    let data: String = std::iter::repeat('x').take(CHUNK_SIZE * 2 + 5).collect();
    let mut out = String::new();
    push_chunks(&mut out, "R", "C", &data);
    let x = |n: usize| "x".repeat(n);
    let expected = format!(
        "\x1b_GR,m=1;{}\x1b\\\x1b_GC,m=1;{}\x1b\\\x1b_GC,m=0;{}\x1b\\",
        x(CHUNK_SIZE),
        x(CHUNK_SIZE),
        x(5)
    );
    assert_eq!(out, expected);
    let mut rebuilt = String::new();
    for part in out.split("\x1b\\").filter(|p| !p.is_empty()) {
        rebuilt.push_str(part.split(';').nth(1).unwrap());
    }
    assert_eq!(rebuilt, data);
}

#[test]
fn base64_standard_alphabet() {
    let mut b = Base64::new();
    assert_eq!(b.encode(b"Man"), "TWFu");
    assert_eq!(b.encode(b"Ma"), "TWE=");
    assert_eq!(b.encode(&[0xfb, 0xff]), "+/8=");
}

#[test]
fn deflate_compresses() {
    let input = vec![7u8; 1000];
    let mut d = Deflate::new();
    let out = d.compress(&input).unwrap().to_vec();
    assert!(out.len() < input.len());
    assert_eq!(out[0], 0x78);
}

#[test]
fn one_frame_image_commands() {
    let frames = vec![Frame { width: 1, height: 1, delay: 0, rgba: vec![1, 2, 3, 4] }];
    let (s, dims) = encode_commands(&frames, 90).unwrap();
    assert_eq!(dims, Dimensions { width: 1, height: 1 });
    assert!(s.starts_with("\x1b_Ga=t,f=32,s=1,v=1,t=d,i=90,o=z,q=2;"));
    assert!(s.ends_with("\x1b\\"));
    assert!(!s.contains("a=a"));
}

#[test]
fn animation_commands() {
    let frame = |d| Frame { width: 2, height: 1, delay: d, rgba: vec![0; 8] };
    let (s, _) = encode_commands(&vec![frame(0), frame(40), frame(-1)], 92).unwrap();
    assert!(s.contains("\x1b_Ga=f,f=32,s=2,v=1,t=d,i=92,z=40,o=z,q=2;"));
    assert!(s.contains("\x1b_Ga=f,f=32,s=2,v=1,t=d,i=92,z=-1,o=z,q=2;"));
    assert!(s.ends_with("\x1b_Ga=a,i=92,s=3,v=1,q=2\x1b\\"));
}

#[test]
fn placement_commands() {
    assert_eq!(placement(7, None), "\x1b_Ga=p,i=7,p=7,C=1,q=2\x1b\\");
    assert_eq!(placement(7, Some((10, 4))), "\x1b_Ga=p,i=7,p=7,C=1,q=2,c=10,r=4\x1b\\");
}
