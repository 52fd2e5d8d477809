use praise_mod::audio::AudioReaderError;
use praise_mod::img::{resize_image, ResizeImageError};

#[test]
fn resizing_changes_the_dimensions() {
    // build a small PNG in memory
    let img = image::RgbaImage::from_pixel(8, 8, image::Rgba([10, 20, 30, 255]));
    let dynamic = image::DynamicImage::ImageRgba8(img);
    let mut buf = std::io::Cursor::new(Vec::new());
    dynamic.write_to(&mut buf, image::ImageFormat::Png).unwrap();
    let data = buf.into_inner();

    let resized = resize_image(&data, 2, 3).unwrap();
    let back = image::load_from_memory(&resized).unwrap();
    assert_eq!(back.width(), 2);
    assert_eq!(back.height(), 3);
}

#[test]
fn unreadable_bytes_fail_as_a_memory_load() {
    let data = vec![1u8, 2, 3, 4];
    match resize_image(&data, 2, 2) {
        Err(ResizeImageError::CantLoadImageFromMemory { text }) => {
            assert!(!text.is_empty());
        },
        _ => panic!("expected the memory-load error"),
    }
}

#[test]
fn error_messages_name_their_stage() {
    let e = ResizeImageError::CantSaveImageToFile { text: String::from("disk") };
    assert_eq!(e.message(), "can't save image: disk");
    let a = AudioReaderError::CantOpenAudioFile { text: String::from("gone") };
    assert_eq!(a.message(), "can't open audio file: gone");
    let d = AudioReaderError::CantDecodeAudioFile { text: String::from("bad") };
    assert_eq!(d.message(), "can't decode audio file: bad");
    let f = ResizeImageError::CantLoadImageFromFile { text: String::from("lost") };
    assert_eq!(f.message(), "can't load image from file: lost");
}
