use pathtracer::obj::{load_model, MeshError};
use pathtracer::rtw_stb_image::{search_paths, RtwImage};

/// A picture in the format of Windows bitmaps with 24 bits to the pixel. The format stores the
/// rows from the bottom up, each filled up to a multiple of four bytes, and blue first.
fn bitmap(width: usize, height: usize, pixel: impl Fn(usize, usize) -> [u8; 3]) -> Vec<u8> {
    let row = (3 * width + 3) / 4 * 4;
    let mut file = Vec::new();
    file.extend_from_slice(b"BM");
    file.extend_from_slice(&((54 + row * height) as u32).to_le_bytes());
    file.extend_from_slice(&0u32.to_le_bytes());
    file.extend_from_slice(&54u32.to_le_bytes());
    file.extend_from_slice(&40u32.to_le_bytes());
    file.extend_from_slice(&(width as i32).to_le_bytes());
    file.extend_from_slice(&(height as i32).to_le_bytes());
    file.extend_from_slice(&1u16.to_le_bytes());
    file.extend_from_slice(&24u16.to_le_bytes());
    file.extend_from_slice(&[0u8; 24]);
    for y in (0..height).rev() {
        for x in 0..width {
            let [r, g, b] = pixel(x, y);
            file.extend_from_slice(&[b, g, r]);
        }
        file.resize(file.len() + row - 3 * width, 0);
    }
    file
}

fn four_pixels() -> Vec<u8> {
    bitmap(2, 2, |x, y| match (x, y) {
        (0, 0) => [255, 0, 0],
        (1, 0) => [0, 255, 0],
        (0, 1) => [0, 0, 255],
        _ => [10, 20, 30],
    })
}

#[test]
fn load_decodes_a_bitmap() {
    let mut image = RtwImage::new();
    assert!(image.load(&four_pixels()));
    assert_eq!(image.width(), 2);
    assert_eq!(image.height(), 2);
    assert_eq!(image.pixel_data(0, 0), [255, 0, 0]);
    assert_eq!(image.pixel_data(1, 0), [0, 255, 0]);
    assert_eq!(image.pixel_data(0, 1), [0, 0, 255]);
    assert_eq!(image.pixel_data(1, 1), [10, 20, 30]);
    assert_eq!(image.pixel_data(5, 5), [10, 20, 30]);
}

#[test]
fn load_decodes_a_wider_bitmap() {
    let mut image = RtwImage::new();
    assert!(image.load(&bitmap(5, 3, |x, y| [x as u8, y as u8, (10 * y + x) as u8])));
    assert_eq!(image.width(), 5);
    assert_eq!(image.height(), 3);
    for y in 0..3 {
        for x in 0..5 {
            assert_eq!(image.pixel_data(x, y), [x as u8, y as u8, (10 * y + x) as u8]);
        }
    }
}

#[test]
fn load_refuses_what_is_no_picture() {
    let mut image = RtwImage::new();
    assert!(!image.load(b"this is no picture"));
    assert!(!image.load(&[]));
    assert_eq!(image.width(), 0);
    assert_eq!(image.pixel_data(0, 0), [255, 0, 255]);
}

#[test]
fn a_failed_load_leaves_the_image_alone() {
    let mut image = RtwImage::new();
    assert!(image.load(&four_pixels()));
    assert!(!image.load(b"neither is this"));
    assert_eq!(image.width(), 2);
    assert_eq!(image.pixel_data(1, 1), [10, 20, 30]);
}

#[test]
fn a_second_load_replaces_the_picture() {
    let mut image = RtwImage::new();
    assert!(image.load(&four_pixels()));
    assert!(image.load(&bitmap(1, 1, |_, _| [7, 8, 9])));
    assert_eq!(image.width(), 1);
    assert_eq!(image.height(), 1);
    assert_eq!(image.pixel_data(1, 1), [7, 8, 9]);
    assert_eq!(image.pixel_data(0, 0), [7, 8, 9]);
}

#[test]
fn search_paths_begin_with_the_directory_of_the_user() {
    assert_eq!(
        search_paths("pictures", "earthmap.jpg"),
        vec![
            "pictures/earthmap.jpg",
            "earthmap.jpg",
            "assets/earthmap.jpg",
            "images/earthmap.jpg",
            "../images/earthmap.jpg",
            "../../images/earthmap.jpg",
            "../../../images/earthmap.jpg",
            "../../../../images/earthmap.jpg",
            "../../../../../images/earthmap.jpg",
            "../../../../../../images/earthmap.jpg",
        ]
    );
}

#[test]
fn search_paths_pass_over_an_empty_directory() {
    let paths = search_paths("", "moon.png");
    assert_eq!(paths.len(), 9);
    assert_eq!(paths[0], "moon.png");
    assert_eq!(paths[1], "assets/moon.png");
    assert_eq!(paths[8], "../../../../../../images/moon.png");
}

#[test]
fn load_model_gives_the_corners_of_each_face() {
    let indices = vec![0, 1, 2, 2, 1, 3];
    assert_eq!(load_model(&indices, 12, 8, Some(0), 1), Ok(vec![(0, 1, 2), (2, 1, 3)]));
    assert_eq!(load_model(&indices, 12, 0, None, 0), Ok(vec![(0, 1, 2), (2, 1, 3)]));
}

#[test]
fn load_model_passes_over_indices_that_make_no_face() {
    assert_eq!(load_model(&vec![0, 1, 2, 0], 9, 0, None, 0), Ok(vec![(0, 1, 2)]));
    assert_eq!(load_model(&vec![0, 1], 0, 0, Some(9), 0), Ok(vec![]));
    assert_eq!(load_model(&vec![], 0, 0, Some(9), 0), Ok(vec![]));
}

#[test]
fn load_model_misses_a_position() {
    // Vertex 3 needs the positions 9, 10 and 11.
    let indices = vec![0, 1, 2, 2, 1, 3];
    assert_eq!(
        load_model(&indices, 11, 0, None, 0),
        Err(MeshError::MissingPosition { face: 1, vertex: 3 })
    );
    assert_eq!(
        load_model(&vec![0, 7, 9], 3, 0, None, 0),
        Err(MeshError::MissingPosition { face: 0, vertex: 7 })
    );
    assert_eq!(
        load_model(&vec![u32::MAX, 0, 0], usize::MAX, 0, None, 0),
        if usize::MAX as u128 > 3 * (u32::MAX as u128) + 2 {
            Ok(vec![(u32::MAX as usize, 0, 0)])
        } else {
            Err(MeshError::MissingPosition { face: 0, vertex: u32::MAX })
        }
    );
}

#[test]
fn load_model_misses_a_texture_coordinate() {
    let indices = vec![0, 1, 2];
    // Vertex 2 needs the texture coordinates 4 and 5.
    assert_eq!(
        load_model(&indices, 9, 5, None, 0),
        Err(MeshError::MissingTexcoord { face: 0, vertex: 2 })
    );
    assert_eq!(
        load_model(&indices, 9, 1, None, 0),
        Err(MeshError::MissingTexcoord { face: 0, vertex: 1 })
    );
    assert_eq!(load_model(&indices, 9, 6, None, 0), Ok(vec![(0, 1, 2)]));
}

#[test]
fn load_model_misses_a_material() {
    let indices = vec![0, 1, 2];
    assert_eq!(
        load_model(&indices, 9, 0, Some(2), 2),
        Err(MeshError::MissingMaterial { face: 0, material: 2 })
    );
    assert_eq!(load_model(&indices, 9, 0, Some(1), 2), Ok(vec![(0, 1, 2)]));
}

#[test]
fn load_model_reports_the_first_fault() {
    // The first texture coordinates are asked of all corners before the second of any.
    assert_eq!(
        load_model(&vec![2, 3, 0], 12, 5, Some(9), 0),
        Err(MeshError::MissingTexcoord { face: 0, vertex: 3 })
    );
    // Positions come before texture coordinates and materials.
    assert_eq!(
        load_model(&vec![0, 1, 5], 12, 1, Some(9), 0),
        Err(MeshError::MissingPosition { face: 0, vertex: 5 })
    );
    // A fault of an earlier face comes before that of a later one.
    assert_eq!(
        load_model(&vec![0, 1, 2, 9, 9, 9], 9, 0, Some(4), 4),
        Err(MeshError::MissingMaterial { face: 0, material: 4 })
    );
}
