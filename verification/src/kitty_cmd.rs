//! Commands of the kitty graphics protocol: transmitting compressed RGBA
//! images in chunks, animating them, and deleting them.
use vstd::prelude::*;

use crate::decimal::{decimal, push_decimal};
use crate::formatting::signed_decimal;
use crate::kitty::Dimensions;
use crate::text::{chars_of, push_range, push_str, string_push};

verus! {

/// What opens a kitty graphics command: `ESC _ G`.
pub open spec fn kitty_start() -> Seq<char> {
    seq!['\x1b', '_', 'G']
}

/// What closes a kitty graphics command: `ESC \`.
pub open spec fn kitty_end() -> Seq<char> {
    seq!['\x1b', '\\']
}

/// A key with a one-char value: `k=v`.
pub open spec fn pair(k: char, v: char) -> Seq<char> {
    seq![k, '=', v]
}

/// A key with a number: `k=n`.
pub open spec fn kv(k: char, n: nat) -> Seq<char> {
    seq![k, '='] + decimal(n)
}

/// The fields of a command, joined by commas.
pub open spec fn fields(v: Seq<Seq<char>>) -> Seq<char>
    decreases v.len(),
{
    if v.len() == 0 {
        Seq::empty()
    } else if v.len() == 1 {
        v[0]
    } else {
        fields(v.drop_last()) + seq![','] + v.last()
    }
}

/// The header of the first chunk that transmits an RGBA image: transmit,
/// 32-bit pixels of the given size, sent directly, under `id`, compressed with
/// zlib, quietly.
pub open spec fn transmit_root(dims: Dimensions, id: u32) -> Seq<char> {
    fields(
        seq![
            pair('a', 't'),
            kv('f', 32),
            kv('s', dims.width as nat),
            kv('v', dims.height as nat),
            pair('t', 'd'),
            kv('i', id as nat),
            pair('o', 'z'),
            kv('q', 2),
        ],
    )
}

/// The header of the chunks after the first one of an image.
pub open spec fn transmit_chunk(id: u32) -> Seq<char> {
    fields(seq![kv('i', id as nat), kv('q', 2)])
}

/// The header of the first chunk of an animation frame shown `gap`
/// milliseconds after the one before.
pub open spec fn frame_root(dims: Dimensions, id: u32, gap: i32) -> Seq<char> {
    fields(
        seq![
            pair('a', 'f'),
            kv('f', 32),
            kv('s', dims.width as nat),
            kv('v', dims.height as nat),
            pair('t', 'd'),
            kv('i', id as nat),
            seq!['z', '='] + signed_decimal(gap as int),
            pair('o', 'z'),
            kv('q', 2),
        ],
    )
}

/// The header of the chunks after the first one of an animation frame.
pub open spec fn frame_chunk(id: u32) -> Seq<char> {
    fields(seq![pair('a', 'f'), kv('i', id as nat), kv('q', 2)])
}

/// The command that runs the animation of image `id` in a loop.
pub open spec fn animation_control(id: u32) -> Seq<char> {
    kitty_start() + fields(
        seq![pair('a', 'a'), kv('i', id as nat), kv('s', 3), kv('v', 1), kv('q', 2)],
    ) + kitty_end()
}

/// The command that deletes image `id`.
pub open spec fn delete_id_command(id: u32) -> Seq<char> {
    kitty_start() + fields(seq![pair('a', 'd'), pair('d', 'i'), kv('i', id as nat), kv('q', 2)])
        + kitty_end()
}

/// The command that deletes the images with ids `first..=last`.
pub open spec fn delete_range_command(first: u32, last: u32) -> Seq<char> {
    kitty_start() + fields(
        seq![pair('a', 'd'), pair('d', 'r'), kv('x', first as nat), kv('y', last as nat), kv('q', 2)],
    ) + kitty_end()
}

/// The command that deletes all visible images.
pub open spec fn delete_all_command() -> Seq<char> {
    kitty_start() + fields(seq![pair('a', 'd'), pair('d', 'a'), kv('q', 2)]) + kitty_end()
}

/// The command that shows image `id` as its placement `id`, the cursor left
/// where it is, quietly; stretched over `stretch` columns and rows when
/// given, at the image's own size otherwise.
pub open spec fn placement_command(id: u32, stretch: Option<(u16, u16)>) -> Seq<char> {
    let base = seq![pair('a', 'p'), kv('i', id as nat), kv('p', id as nat), pair('C', '1'), kv('q', 2)];
    kitty_start() + fields(
        match stretch {
            Some((c, r)) => base + seq![kv('c', c as nat), kv('r', r as nat)],
            None => base,
        },
    ) + kitty_end()
}

/// The command that shows image `id` at the cursor, at its own size or
/// stretched over `stretch` columns and rows.
pub fn placement(id: u32, stretch: Option<(u16, u16)>) -> (s: String)
    ensures
        s@ == placement_command(id, stretch),
{
    let mut s = String::new();
    push_start(&mut s);
    push_pair(&mut s, 'a', 'p');
    push_comma(&mut s);
    push_kv(&mut s, 'i', id as u64);
    push_comma(&mut s);
    push_kv(&mut s, 'p', id as u64);
    push_comma(&mut s);
    push_pair(&mut s, 'C', '1');
    push_comma(&mut s);
    push_kv(&mut s, 'q', 2);
    let ghost base = seq![pair('a', 'p'), kv('i', id as nat), kv('p', id as nat), pair('C', '1'), kv('q', 2)];
    proof {
        reveal_with_fuel(fields, 6);
        assert(s@ =~= kitty_start() + fields(base));
    }
    match stretch {
        Some((c, r)) => {
            push_comma(&mut s);
            push_kv(&mut s, 'c', c as u64);
            push_comma(&mut s);
            push_kv(&mut s, 'r', r as u64);
            proof {
                let all = base + seq![kv('c', c as nat), kv('r', r as nat)];
                assert(all.drop_last() =~= base.push(kv('c', c as nat)));
                assert(base.push(kv('c', c as nat)).drop_last() =~= base);
                assert(s@ =~= kitty_start() + fields(all));
            }
        },
        None => {},
    }
    push_end(&mut s);
    s
}

/// The column at which an image `columns` wide starts when it is centred
/// across the `width` columns that start at `x`; an image wider than them
/// starts at `x`.
pub fn centred_column(x: u16, width: u16, columns: u16) -> (c: u16)
    requires
        x + width <= u16::MAX,
    ensures
        c == x + (width - (if columns < width {
            columns
        } else {
            width
        })) / 2,
{
    let shown = if columns < width {
        columns
    } else {
        width
    };
    x + (width - shown) / 2
}

/// The escape sequence that moves the cursor to column `x` and row `y`,
/// counted from zero: `ESC [ y+1 ; x+1 H`.
pub open spec fn cursor_move_command(x: u16, y: u16) -> Seq<char> {
    seq!['\x1b', '['] + decimal((y + 1) as nat) + seq![';'] + decimal((x + 1) as nat) + seq!['H']
}

/// Moves the cursor to column `x` and row `y`, counted from zero.
pub fn cursor_move(x: u16, y: u16) -> (s: String)
    ensures
        s@ == cursor_move_command(x, y),
{
    let mut s = String::new();
    string_push(&mut s, '\x1b');
    string_push(&mut s, '[');
    push_decimal(&mut s, y as u64 + 1);
    string_push(&mut s, ';');
    push_decimal(&mut s, x as u64 + 1);
    string_push(&mut s, 'H');
    assert(s@ =~= cursor_move_command(x, y));
    s
}

/// The most chars of data that one chunk carries.
pub const CHUNK_SIZE: usize = 4096;

/// The data of the chunks from char `start` of `data` on: each chunk but the
/// last carries `CHUNK_SIZE` chars.
pub open spec fn payloads_from(data: Seq<char>, start: int) -> Seq<Seq<char>>
    decreases data.len() - start,
{
    if start + CHUNK_SIZE < data.len() {
        seq![data.subrange(start, start + CHUNK_SIZE)] + payloads_from(data, start + CHUNK_SIZE)
    } else {
        seq![data.subrange(start, data.len() as int)]
    }
}

/// The commands after the first one, from char `start` of `data` on: the
/// last says `m=0`, the others `m=1`.
pub open spec fn rest_chunks(chunk: Seq<char>, data: Seq<char>, start: int) -> Seq<char>
    decreases data.len() - start,
{
    if start + CHUNK_SIZE < data.len() {
        kitty_start() + chunk + seq![',', 'm', '=', '1', ';'] + data.subrange(
            start,
            start + CHUNK_SIZE,
        ) + kitty_end() + rest_chunks(chunk, data, start + CHUNK_SIZE)
    } else {
        kitty_start() + chunk + seq![',', 'm', '=', '0', ';'] + data.subrange(
            start,
            data.len() as int,
        ) + kitty_end()
    }
}

/// The commands that send `data`: one command if it fits one chunk, else a
/// first chunk under `root` and the rest under `chunk`.
pub open spec fn chunked(root: Seq<char>, chunk: Seq<char>, data: Seq<char>) -> Seq<char> {
    if data.len() <= CHUNK_SIZE {
        kitty_start() + root + seq![';'] + data + kitty_end()
    } else {
        kitty_start() + root + seq![',', 'm', '=', '1', ';'] + data.subrange(0, CHUNK_SIZE as int)
            + kitty_end() + rest_chunks(chunk, data, CHUNK_SIZE as int)
    }
}

/// Appends `k=v`.
fn push_pair(s: &mut String, k: char, v: char)
    ensures
        final(s)@ == old(s)@ + pair(k, v),
{
    string_push(s, k);
    string_push(s, '=');
    string_push(s, v);
    assert(final(s)@ =~= old(s)@ + pair(k, v));
}

/// Appends `k=n`.
fn push_kv(s: &mut String, k: char, n: u64)
    ensures
        final(s)@ == old(s)@ + kv(k, n as nat),
{
    string_push(s, k);
    string_push(s, '=');
    push_decimal(s, n);
    assert(final(s)@ =~= old(s)@ + kv(k, n as nat));
}

/// Appends the decimal text of a signed number.
fn push_signed(s: &mut String, n: i32)
    ensures
        final(s)@ == old(s)@ + signed_decimal(n as int),
{
    if n < 0 {
        string_push(s, '-');
        let m: i64 = -(n as i64);
        push_decimal(s, m as u64);
        assert(final(s)@ =~= old(s)@ + signed_decimal(n as int));
    } else {
        push_decimal(s, n as u64);
    }
}

fn push_comma(s: &mut String)
    ensures
        final(s)@ == old(s)@ + seq![','],
{
    string_push(s, ',');
    assert(final(s)@ =~= old(s)@ + seq![',']);
}

/// Appends the fields that name the size of an RGBA image and say that it is
/// sent directly: `f=32,s=W,v=H,t=d`, each after a comma.
fn push_format(s: &mut String, dims: Dimensions)
    ensures
        final(s)@ == old(s)@ + seq![','] + kv('f', 32) + seq![','] + kv('s', dims.width as nat)
            + seq![','] + kv('v', dims.height as nat) + seq![','] + pair('t', 'd'),
{
    push_comma(s);
    push_kv(s, 'f', 32);
    push_comma(s);
    push_kv(s, 's', dims.width as u64);
    push_comma(s);
    push_kv(s, 'v', dims.height as u64);
    push_comma(s);
    push_pair(s, 't', 'd');
}

/// The two headers of an image: its first chunk's and the others'.
pub fn transmit_headers(dims: Dimensions, id: u32) -> (r: (String, String))
    ensures
        r.0@ == transmit_root(dims, id),
        r.1@ == transmit_chunk(id),
{
    let mut root = String::new();
    push_pair(&mut root, 'a', 't');
    push_format(&mut root, dims);
    push_comma(&mut root);
    push_kv(&mut root, 'i', id as u64);
    push_comma(&mut root);
    push_pair(&mut root, 'o', 'z');
    push_comma(&mut root);
    push_kv(&mut root, 'q', 2);
    proof {
        let v = seq![
            pair('a', 't'),
            kv('f', 32),
            kv('s', dims.width as nat),
            kv('v', dims.height as nat),
            pair('t', 'd'),
            kv('i', id as nat),
            pair('o', 'z'),
            kv('q', 2),
        ];
        reveal_with_fuel(fields, 9);
        assert(root@ =~= fields(v));
    }
    let mut chunk = String::new();
    push_kv(&mut chunk, 'i', id as u64);
    push_comma(&mut chunk);
    push_kv(&mut chunk, 'q', 2);
    proof {
        reveal_with_fuel(fields, 3);
        assert(chunk@ =~= transmit_chunk(id));
    }
    (root, chunk)
}

/// The two headers of an animation frame.
pub fn frame_headers(dims: Dimensions, id: u32, gap: i32) -> (r: (String, String))
    ensures
        r.0@ == frame_root(dims, id, gap),
        r.1@ == frame_chunk(id),
{
    let mut root = String::new();
    push_pair(&mut root, 'a', 'f');
    push_format(&mut root, dims);
    push_comma(&mut root);
    push_kv(&mut root, 'i', id as u64);
    push_comma(&mut root);
    string_push(&mut root, 'z');
    string_push(&mut root, '=');
    push_signed(&mut root, gap);
    push_comma(&mut root);
    push_pair(&mut root, 'o', 'z');
    push_comma(&mut root);
    push_kv(&mut root, 'q', 2);
    proof {
        reveal_with_fuel(fields, 10);
        assert(root@ =~= frame_root(dims, id, gap));
    }
    let mut chunk = String::new();
    push_pair(&mut chunk, 'a', 'f');
    push_comma(&mut chunk);
    push_kv(&mut chunk, 'i', id as u64);
    push_comma(&mut chunk);
    push_kv(&mut chunk, 'q', 2);
    proof {
        reveal_with_fuel(fields, 4);
        assert(chunk@ =~= frame_chunk(id));
    }
    (root, chunk)
}

fn push_start(s: &mut String)
    ensures
        final(s)@ == old(s)@ + kitty_start(),
{
    string_push(s, '\x1b');
    string_push(s, '_');
    string_push(s, 'G');
    assert(final(s)@ =~= old(s)@ + kitty_start());
}

fn push_end(s: &mut String)
    ensures
        final(s)@ == old(s)@ + kitty_end(),
{
    string_push(s, '\x1b');
    string_push(s, '\\');
    assert(final(s)@ =~= old(s)@ + kitty_end());
}

/// Appends the command that runs the animation of image `id` in a loop.
pub fn push_animation_control(s: &mut String, id: u32)
    ensures
        final(s)@ == old(s)@ + animation_control(id),
{
    let ghost before = s@;
    push_start(s);
    push_pair(s, 'a', 'a');
    push_comma(s);
    push_kv(s, 'i', id as u64);
    push_comma(s);
    push_kv(s, 's', 3);
    push_comma(s);
    push_kv(s, 'v', 1);
    push_comma(s);
    push_kv(s, 'q', 2);
    push_end(s);
    proof {
        reveal_with_fuel(fields, 6);
        assert(s@ =~= before + animation_control(id));
    }
}

/// The command that deletes image `id`.
pub fn delete_id(id: u32) -> (s: String)
    ensures
        s@ == delete_id_command(id),
{
    let mut s = String::new();
    push_start(&mut s);
    push_pair(&mut s, 'a', 'd');
    push_comma(&mut s);
    push_pair(&mut s, 'd', 'i');
    push_comma(&mut s);
    push_kv(&mut s, 'i', id as u64);
    push_comma(&mut s);
    push_kv(&mut s, 'q', 2);
    push_end(&mut s);
    proof {
        reveal_with_fuel(fields, 5);
        assert(s@ =~= delete_id_command(id));
    }
    s
}

/// The command that deletes the images with ids `first..=last`.
pub fn delete_range(first: u32, last: u32) -> (s: String)
    ensures
        s@ == delete_range_command(first, last),
{
    let mut s = String::new();
    push_start(&mut s);
    push_pair(&mut s, 'a', 'd');
    push_comma(&mut s);
    push_pair(&mut s, 'd', 'r');
    push_comma(&mut s);
    push_kv(&mut s, 'x', first as u64);
    push_comma(&mut s);
    push_kv(&mut s, 'y', last as u64);
    push_comma(&mut s);
    push_kv(&mut s, 'q', 2);
    push_end(&mut s);
    proof {
        reveal_with_fuel(fields, 6);
        assert(s@ =~= delete_range_command(first, last));
    }
    s
}

/// The command that deletes all visible images.
pub fn delete_all() -> (s: String)
    ensures
        s@ == delete_all_command(),
{
    let mut s = String::new();
    push_start(&mut s);
    push_pair(&mut s, 'a', 'd');
    push_comma(&mut s);
    push_pair(&mut s, 'd', 'a');
    push_comma(&mut s);
    push_kv(&mut s, 'q', 2);
    push_end(&mut s);
    proof {
        reveal_with_fuel(fields, 4);
        assert(s@ =~= delete_all_command());
    }
    s
}

/// Appends the commands that send `data` in chunks under the given headers.
pub fn push_chunks(out: &mut String, root_header: &str, chunk_header: &str, data: &str)
    ensures
        final(out)@ == old(out)@ + chunked(root_header@, chunk_header@, data@),
{
    let chars = chars_of(data);
    let len = chars.len();
    if len <= CHUNK_SIZE {
        push_start(out);
        push_str(out, root_header);
        string_push(out, ';');
        push_range(out, &chars, 0, len);
        push_end(out);
        proof {
            assert(chars@.subrange(0, len as int) =~= data@);
            assert(final(out)@ =~= old(out)@ + chunked(root_header@, chunk_header@, data@));
        }
        return;
    }
    push_start(out);
    push_str(out, root_header);
    push_more(out, '1');
    push_range(out, &chars, 0, CHUNK_SIZE);
    push_end(out);
    let ghost first = out@;
    proof {
        assert(first =~= old(out)@ + kitty_start() + root_header@ + seq![',', 'm', '=', '1', ';']
            + data@.subrange(0, CHUNK_SIZE as int) + kitty_end());
    }
    let mut start: usize = CHUNK_SIZE;
    while len - start > CHUNK_SIZE
        invariant
            CHUNK_SIZE <= start <= len,
            len == data@.len(),
            chars@ == data@,
            first + rest_chunks(chunk_header@, data@, CHUNK_SIZE as int) == out@ + rest_chunks(
                chunk_header@,
                data@,
                start as int,
            ),
        decreases len - start,
    {
        let ghost before = out@;
        let end = start + CHUNK_SIZE;
        push_start(out);
        push_str(out, chunk_header);
        push_more(out, '1');
        push_range(out, &chars, start, end);
        push_end(out);
        proof {
            assert(out@ + rest_chunks(chunk_header@, data@, end as int) =~= before + rest_chunks(
                chunk_header@,
                data@,
                start as int,
            ));
        }
        start = end;
    }
    let ghost before = out@;
    push_start(out);
    push_str(out, chunk_header);
    push_more(out, '0');
    push_range(out, &chars, start, len);
    push_end(out);
    proof {
        assert(out@ =~= before + rest_chunks(chunk_header@, data@, start as int));
        assert(out@ =~= old(out)@ + chunked(root_header@, chunk_header@, data@));
    }
}

/// The base64 char of a six-bit value, in the standard alphabet.
pub open spec fn b64_char(v: int) -> char {
    if v < 26 {
        (65 + v) as char
    } else if v < 52 {
        (97 + v - 26) as char
    } else if v < 62 {
        (48 + v - 52) as char
    } else if v == 62 {
        '+'
    } else {
        '/'
    }
}

/// The four chars of a group of one to three bytes, padded with `=`.
pub open spec fn b64_group(b: Seq<u8>) -> Seq<char> {
    let b0 = b[0] as int;
    if b.len() >= 3 {
        let b1 = b[1] as int;
        let b2 = b[2] as int;
        seq![
            b64_char(b0 / 4),
            b64_char((b0 % 4) * 16 + b1 / 16),
            b64_char((b1 % 16) * 4 + b2 / 64),
            b64_char(b2 % 64),
        ]
    } else if b.len() == 2 {
        let b1 = b[1] as int;
        seq![b64_char(b0 / 4), b64_char((b0 % 4) * 16 + b1 / 16), b64_char((b1 % 16) * 4), '=']
    } else {
        seq![b64_char(b0 / 4), b64_char((b0 % 4) * 16), '=', '=']
    }
}

/// Standard base64 (RFC 4648, with padding) of `b`.
pub open spec fn base64_standard(b: Seq<u8>) -> Seq<char>
    decreases b.len(),
{
    if b.len() == 0 {
        Seq::empty()
    } else if b.len() <= 3 {
        b64_group(b)
    } else {
        b64_group(b.take(3)) + base64_standard(b.skip(3))
    }
}

/// base64's `Engine::encode_string` with the `STANDARD` engine. Its source
/// appends to the string the standard alphabet's encoding of the bytes, with
/// `=` padding, as `base64_standard` states it.
#[verifier::external_body]
fn base64_encode_string(input: &[u8], out: &mut String)
    ensures
        final(out)@ == old(out)@ + base64_standard(input@),
{
    base64::Engine::encode_string(&base64::engine::general_purpose::STANDARD, input, out);
}

/// Encodes bytes as standard base64, reusing its buffer.
pub struct Base64 {
    buf: String,
}

impl Base64 {
    pub fn new() -> (b: Self) {
        Base64 { buf: String::new() }
    }

    pub fn encode(&mut self, input: &[u8]) -> (s: &str)
        ensures
            s@ == base64_standard(input@),
    {
        self.buf = String::new();
        base64_encode_string(input, &mut self.buf);
        assert(self.buf@ =~= base64_standard(input@));
        self.buf.as_str()
    }
}

/// What zlib-rs's `compress_slice` makes of `input` with the default
/// configuration: a zlib stream of the compressed bytes.
pub uninterp spec fn deflated(input: Seq<u8>) -> Seq<u8>;

#[verifier::external_type_specification]
#[verifier::external_body]
pub struct ExReturnCode(zlib_rs::ReturnCode);

/// zlib-rs's `compress_slice` with the default configuration, into a buffer
/// of `compress_bound` bytes. What it compresses to is named `deflated`, of
/// the input alone. zlib-rs documents that a buffer of `compress_bound` bytes
/// is always large enough, and the default configuration is valid, so the
/// call succeeds; its source fails otherwise only when memory cannot be had.
#[verifier::external_body]
fn zlib_compress(input: &[u8]) -> (r: Result<Vec<u8>, zlib_rs::ReturnCode>)
    ensures
        r is Ok,
        r matches Ok(v) ==> v@ == deflated(input@),
{
    let mut buf = vec![0u8; zlib_rs::compress_bound(input.len())];
    let (out, rc) = zlib_rs::compress_slice(&mut buf, input, zlib_rs::DeflateConfig::default());
    match rc {
        zlib_rs::ReturnCode::Ok => Ok(out.to_vec()),
        _ => Err(rc),
    }
}

/// zlib compression failed with this return code.
#[derive(Debug)]
pub struct DeflateError(pub zlib_rs::ReturnCode);

/// Compresses bytes with zlib, reusing its buffer.
pub struct Deflate {
    buf: Vec<u8>,
}

impl Deflate {
    pub fn new() -> (d: Self) {
        Deflate { buf: Vec::new() }
    }

    pub fn compress(&mut self, input: &[u8]) -> (r: Result<&[u8], DeflateError>)
        ensures
            r is Ok,
            r matches Ok(b) ==> b@ == deflated(input@),
    {
        match zlib_compress(input) {
            Ok(v) => {
                self.buf = v;
                Ok(self.buf.as_slice())
            },
            Err(rc) => Err(DeflateError(rc)),
        }
    }
}

/// One frame of an image: its size in pixels, how many milliseconds it is
/// shown after the frame before, and its RGBA pixels.
pub struct Frame {
    pub width: u32,
    pub height: u32,
    pub delay: i32,
    pub rgba: Vec<u8>,
}

/// The pixel dimensions of a frame.
pub open spec fn frame_dims(f: Frame) -> Dimensions {
    Dimensions { width: f.width, height: f.height }
}

/// The commands that send frame `i` and those after it as animation frames.
pub open spec fn animation_frames(frames: Seq<Frame>, id: u32, i: int) -> Seq<char>
    decreases frames.len() - i,
{
    if i < 0 || i >= frames.len() {
        Seq::empty()
    } else {
        chunked(
            frame_root(frame_dims(frames[i]), id, frames[i].delay),
            frame_chunk(id),
            base64_standard(deflated(frames[i].rgba@)),
        ) + animation_frames(frames, id, i + 1)
    }
}

/// The commands that send an image under `id`: its first frame as the image,
/// and, for an animation, the other frames and the command that runs it.
pub open spec fn image_commands(frames: Seq<Frame>, id: u32) -> Seq<char> {
    chunked(
        transmit_root(frame_dims(frames[0]), id),
        transmit_chunk(id),
        base64_standard(deflated(frames[0].rgba@)),
    ) + if frames.len() > 1 {
        animation_frames(frames, id, 1) + animation_control(id)
    } else {
        Seq::empty()
    }
}

/// The commands that send `frames` as image `id`, with the size of its first
/// frame. Compression succeeds, so the result is always the commands.
pub fn encode_commands(frames: &Vec<Frame>, id: u32) -> (r: Result<(String, Dimensions), DeflateError>)
    requires
        frames@.len() >= 1,
    ensures
        r is Ok,
        r matches Ok((s, d)) ==> s@ == image_commands(frames@, id) && d == frame_dims(frames@[0]),
{
    let mut deflate = Deflate::new();
    let mut base64 = Base64::new();
    let mut out = String::new();
    let first = &frames[0];
    let dims = Dimensions { width: first.width, height: first.height };
    let compressed = match deflate.compress(first.rgba.as_slice()) {
        Ok(b) => b,
        Err(e) => return Err(e),
    };
    let b64 = base64.encode(compressed);
    let (root_header, chunk_header) = transmit_headers(dims, id);
    push_chunks(&mut out, root_header.as_str(), chunk_header.as_str(), b64);
    assert(out@ =~= chunked(
        transmit_root(frame_dims(frames@[0]), id),
        transmit_chunk(id),
        base64_standard(deflated(frames@[0].rgba@)),
    ));
    if frames.len() > 1 {
        let ghost head = out@;
        let mut i: usize = 1;
        while i < frames.len()
            invariant
                1 <= i <= frames@.len(),
                head + animation_frames(frames@, id, 1) == out@ + animation_frames(frames@, id, i as int),
            decreases frames.len() - i,
        {
            let f = &frames[i];
            let fd = Dimensions { width: f.width, height: f.height };
            let compressed = match deflate.compress(f.rgba.as_slice()) {
                Ok(b) => b,
                Err(e) => return Err(e),
            };
            let b64 = base64.encode(compressed);
            let (root_header, chunk_header) = frame_headers(fd, id, f.delay);
            let ghost before = out@;
            push_chunks(&mut out, root_header.as_str(), chunk_header.as_str(), b64);
            proof {
                assert(out@ + animation_frames(frames@, id, i + 1) =~= before + animation_frames(
                    frames@,
                    id,
                    i as int,
                ));
            }
            i = i + 1;
        }
        proof {
            assert(animation_frames(frames@, id, i as int) =~= Seq::<char>::empty());
            assert(out@ =~= head + animation_frames(frames@, id, 1));
        }
        push_animation_control(&mut out, id);
    }
    proof {
        assert(out@ =~= image_commands(frames@, id));
    }
    Ok((out, dims))
}

/// Appends `,m=M;`: whether more chunks follow.
fn push_more(s: &mut String, more: char)
    ensures
        final(s)@ == old(s)@ + seq![',', 'm', '=', more, ';'],
{
    string_push(s, ',');
    string_push(s, 'm');
    string_push(s, '=');
    string_push(s, more);
    string_push(s, ';');
    assert(final(s)@ =~= old(s)@ + seq![',', 'm', '=', more, ';']);
}

proof fn lemma_payloads(data: Seq<char>, start: int)
    requires
        0 <= start <= data.len(),
    ensures
        payloads_from(data, start).flatten() == data.subrange(start, data.len() as int),
        forall|i: int|
            0 <= i < payloads_from(data, start).len() ==> (#[trigger] payloads_from(
                data,
                start,
            )[i]).len() <= CHUNK_SIZE,
        forall|i: int|
            0 <= i < payloads_from(data, start).len() - 1 ==> (#[trigger] payloads_from(
                data,
                start,
            )[i]).len() == CHUNK_SIZE,
    decreases data.len() - start,
{
    let p = payloads_from(data, start);
    if start + CHUNK_SIZE < data.len() {
        let head = data.subrange(start, start + CHUNK_SIZE);
        let rest = payloads_from(data, start + CHUNK_SIZE);
        lemma_payloads(data, start + CHUNK_SIZE);
        lemma_flatten_cons(head, rest);
        assert(data.subrange(start, data.len() as int) =~= head + data.subrange(
            start + CHUNK_SIZE,
            data.len() as int,
        ));
        assert forall|i: int| 0 <= i < p.len() implies (#[trigger] p[i]).len() <= CHUNK_SIZE by {
            if i > 0 {
                assert(p[i] == rest[i - 1]);
            }
        }
        assert forall|i: int| 0 <= i < p.len() - 1 implies (#[trigger] p[i]).len() == CHUNK_SIZE by {
            if i > 0 {
                assert(p[i] == rest[i - 1]);
            }
        }
    } else {
        let x = data.subrange(start, data.len() as int);
        lemma_flatten_cons(x, Seq::<Seq<char>>::empty());
        assert(seq![x] + Seq::<Seq<char>>::empty() =~= seq![x]);
        assert(Seq::<Seq<char>>::empty().flatten() =~= Seq::<char>::empty());
        assert(x + Seq::<char>::empty() =~= x);
    }
}

proof fn lemma_flatten_cons(head: Seq<char>, rest: Seq<Seq<char>>)
    ensures
        (seq![head] + rest).flatten() == head + rest.flatten(),
{
    assert((seq![head] + rest).drop_first() =~= rest);
}

/// Sent in chunks, data loses nothing: the chunks together carry all of it,
/// in order, each at most `CHUNK_SIZE` chars and all but the last exactly
/// that many.
pub proof fn law_chunks_cover(data: Seq<char>)
    ensures
        payloads_from(data, 0).flatten() == data,
        forall|i: int|
            0 <= i < payloads_from(data, 0).len() ==> (#[trigger] payloads_from(data, 0)[i]).len()
                <= CHUNK_SIZE,
        forall|i: int|
            0 <= i < payloads_from(data, 0).len() - 1 ==> (#[trigger] payloads_from(data, 0)[i]).len()
                == CHUNK_SIZE,
{
    lemma_payloads(data, 0);
    assert(data.subrange(0, data.len() as int) =~= data);
}

} // verus!
