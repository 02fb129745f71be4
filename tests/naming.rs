use imgur_album::{digits_in_decmial_representation, file_name, MediaItem};

fn item(ext: &str, size: u64) -> MediaItem {
    MediaItem { url: format!("https://example.com/x.{}", ext), ext: ext.to_string(), size }
}

#[test]
fn decimal_digits_() {
    assert_eq!(digits_in_decmial_representation(0), 1);
    assert_eq!(digits_in_decmial_representation(1), 1);
    assert_eq!(digits_in_decmial_representation(9), 1);
    assert_eq!(digits_in_decmial_representation(10), 2);
    assert_eq!(digits_in_decmial_representation(11), 2);
    assert_eq!(digits_in_decmial_representation(99), 2);
    assert_eq!(digits_in_decmial_representation(100), 3);
}

#[test]
fn digits_of_large_numbers() {
    assert_eq!(digits_in_decmial_representation(999), 3);
    assert_eq!(digits_in_decmial_representation(1000), 4);
    assert_eq!(digits_in_decmial_representation(usize::MAX), usize::MAX.to_string().len());
}

#[test]
fn names_of_three_items() {
    assert_eq!(file_name(&item("jpg", 100), 0, 3), "0.jpg");
    assert_eq!(file_name(&item("png", 200), 1, 3), "1.png");
    assert_eq!(file_name(&item("gif", 300), 2, 3), "2.gif");
}

#[test]
fn names_are_padded_to_the_largest_index() {
    let m = item("mp4", 1);
    assert_eq!(file_name(&m, 0, 11), "00.mp4");
    assert_eq!(file_name(&m, 10, 11), "10.mp4");
    assert_eq!(file_name(&m, 7, 101), "007.mp4");
    assert_eq!(file_name(&m, 0, 1), "0.mp4");
    assert_eq!(file_name(&m, 9, 10), "9.mp4");
}

#[test]
fn name_width_is_constant_and_order_is_kept() {
    let m = item("png", 1);
    for count in [1usize, 2, 9, 10, 11, 99, 100, 101, 1000, 1234] {
        let width = std::cmp::max(1, (count - 1).to_string().len());
        let names: Vec<String> = (0..count).map(|i| file_name(&m, i, count)).collect();
        for (i, n) in names.iter().enumerate() {
            let stem = n.strip_suffix(".png").unwrap();
            assert_eq!(stem.len(), width);
            assert_eq!(stem.parse::<usize>().unwrap(), i);
        }
        for w in names.windows(2) {
            assert!(w[0] < w[1]);
        }
    }
}

#[test]
fn extension_is_used_verbatim() {
    assert_eq!(file_name(&item("JPEG", 1), 1, 2), "1.JPEG");
    assert_eq!(file_name(&item("", 1), 0, 1), "0.");
    assert_eq!(file_name(&item("tar.gz", 1), 3, 4), "3.tar.gz");
}
