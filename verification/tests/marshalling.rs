use gleam::error::Error;
use gleam::marshal::{
    buffer_byte_len, bytes_per_channel, channel_count, cstring_from_str, read_pixels_len,
    shader_source_lengths, trim_info_log, trimmed_log_len, ALPHA, BGR, BGRA, LUMINANCE, RGB, RGBA,
    UNSIGNED_BYTE,
};
use gleam::registry::Namespace;

#[test]
fn readback_length_four_channel_one_byte() {
    let n = read_pixels_len(Namespace::DesktopGl, 10, 20, RGBA, UNSIGNED_BYTE).unwrap();
    assert_eq!(n, 4 * 10 * 20);
    let n = read_pixels_len(Namespace::DesktopGl, 0, 20, RGBA, UNSIGNED_BYTE).unwrap();
    assert_eq!(n, 0);
    let n = read_pixels_len(Namespace::EmbeddedGles, 7, 3, RGB, UNSIGNED_BYTE).unwrap();
    assert_eq!(n, 3 * 7 * 3);
}

#[test]
fn readback_length_rejects_unrecognized_format() {
    let r = read_pixels_len(Namespace::DesktopGl, 10, 10, 0xFFFF, UNSIGNED_BYTE);
    assert_eq!(r.unwrap_err(), Error::InvalidArgument);
    let r = read_pixels_len(Namespace::DesktopGl, 10, 10, RGBA, 0x1406);
    assert_eq!(r.unwrap_err(), Error::InvalidArgument);
    let r = read_pixels_len(Namespace::DesktopGl, -1, 10, RGBA, UNSIGNED_BYTE);
    assert_eq!(r.unwrap_err(), Error::InvalidArgument);
}

#[test]
fn channel_table_is_namespace_conditional() {
    assert_eq!(channel_count(Namespace::DesktopGl, RGB).unwrap(), 3);
    assert_eq!(channel_count(Namespace::DesktopGl, RGBA).unwrap(), 4);
    assert_eq!(channel_count(Namespace::DesktopGl, ALPHA).unwrap(), 1);
    assert_eq!(channel_count(Namespace::DesktopGl, LUMINANCE).unwrap(), 1);
    assert_eq!(channel_count(Namespace::DesktopGl, BGR).unwrap(), 3);
    assert_eq!(channel_count(Namespace::DesktopGl, BGRA).unwrap(), 4);
    assert_eq!(
        channel_count(Namespace::EmbeddedGles, BGR).unwrap_err(),
        Error::InvalidArgument
    );
    assert_eq!(
        channel_count(Namespace::EmbeddedGles, BGRA).unwrap_err(),
        Error::InvalidArgument
    );
    assert_eq!(channel_count(Namespace::EmbeddedGles, RGBA).unwrap(), 4);
    assert_eq!(bytes_per_channel(UNSIGNED_BYTE).unwrap(), 1);
    assert_eq!(bytes_per_channel(0x1406).unwrap_err(), Error::InvalidArgument);
}

#[test]
fn info_log_lengths() {
    assert_eq!(trimmed_log_len(0, 1024), 0);
    assert_eq!(trimmed_log_len(-3, 1024), 0);
    assert_eq!(trimmed_log_len(1, 1024), 0);
    assert_eq!(trimmed_log_len(10, 1024), 9);
    assert_eq!(trimmed_log_len(1024, 1024), 1023);
    assert_eq!(trimmed_log_len(5000, 1024), 1023);
    assert_eq!(trimmed_log_len(5, 0), 0);
}

#[test]
fn info_log_trimming_drops_terminator() {
    let mut buf = vec![b'e', b'r', b'r', 0, 0, 0, 0, 0];
    trim_info_log(&mut buf, 4);
    assert_eq!(buf, vec![b'e', b'r', b'r']);

    let mut buf = vec![0u8; 8];
    trim_info_log(&mut buf, 0);
    assert_eq!(buf, Vec::<u8>::new());

    let mut buf = vec![b'x'; 8];
    trim_info_log(&mut buf, 100);
    assert_eq!(buf.len(), 7);
}

#[test]
fn cstring_appends_one_zero() {
    assert_eq!(cstring_from_str("abc"), vec![97, 98, 99, 0]);
    assert_eq!(cstring_from_str(""), vec![0]);
}

#[test]
fn buffer_lengths_multiply_exactly() {
    assert_eq!(buffer_byte_len(10, 4).unwrap(), 40);
    assert_eq!(buffer_byte_len(0, 4).unwrap(), 0);
    assert_eq!(
        buffer_byte_len(usize::MAX, 2).unwrap_err(),
        Error::InvalidArgument
    );
}

#[test]
fn shader_source_length_array() {
    let sources = vec![vec![1u8, 2, 3], vec![4u8, 5], Vec::new()];
    assert_eq!(shader_source_lengths(&sources).unwrap(), vec![3, 2, 0]);
}
