use edgequake::media::{bytes_from_base64, bytes_to_base64, encode_image, jpeg_data_uri};

#[test]
fn media_bytes_survive_base64() {
    let bytes: Vec<u8> = (0u8..=255).collect();
    let text = bytes_to_base64(&Some(bytes.clone())).unwrap();
    assert!(text.starts_with("AAECAw"));
    assert_eq!(bytes_from_base64(Some(&text)), Ok(Some(bytes)));
    assert_eq!(bytes_to_base64(&None), None);
    assert_eq!(bytes_from_base64(None), Ok(None));
    assert_eq!(bytes_from_base64(Some("no base64!")), Err(()));
}

#[test]
fn images_become_data_addresses() {
    assert_eq!(jpeg_data_uri(&vec![0xff, 0xd8]), "data:image/jpeg;base64,/9g=");
    let uri = encode_image(vec![7; 4 * 2 * 3], 4, 2, 90).unwrap();
    assert!(uri.starts_with("data:image/jpeg;base64,/9j/"), "{uri}");
    let file = bytes_from_base64(Some(&uri["data:image/jpeg;base64,".len()..])).unwrap().unwrap();
    let image = image::load_from_memory(&file).unwrap();
    assert_eq!((image.width(), image.height()), (4, 2));
    assert_eq!(encode_image(vec![7; 5], 4, 2, 90), None);
}
