use ndarray::{Array2, ShapeBuilder};
use ndarray_npy::{ReadNpyExt, WriteNpyExt};
use sentinel_cloud::codec::{matrix_frame, max_temp_of, parse, FrameQueryError, Grid};

fn bits(vals: &[f32]) -> Vec<u32> {
    vals.iter().map(|v| v.to_bits()).collect()
}

fn grid(rows: usize, cols: usize, vals: &[f32]) -> Grid {
    assert_eq!(rows * cols, vals.len());
    Grid { rows, cols, data: bits(vals) }
}

#[test]
fn round_trip_2x3() {
    let g = grid(2, 3, &[1.5, -2.0, 0.0, 3.25, -0.5, 100.0]);
    let encoded = g.encode();
    let back = parse(&encoded).unwrap();
    assert_eq!(back.rows, 2);
    assert_eq!(back.cols, 3);
    assert_eq!(back.data, g.data);
}

#[test]
fn round_trip_1x1_and_single_row() {
    let g = grid(1, 1, &[-7.125]);
    let back = parse(&g.encode()).unwrap();
    assert_eq!((back.rows, back.cols), (1, 1));
    assert_eq!(back.data, g.data);

    let g = grid(1, 5, &[1.0, 2.0, 3.0, 4.0, 5.0]);
    let back = parse(&g.encode()).unwrap();
    assert_eq!((back.rows, back.cols), (1, 5));
    assert_eq!(back.data, g.data);
}

#[test]
fn parse_accepts_reference_writer() {
    let a = Array2::from_shape_vec((2, 2), vec![1.0f32, 2.0, 3.0, 4.0]).unwrap();
    let mut buf: Vec<u8> = Vec::new();
    a.write_npy(&mut buf).unwrap();
    let g = parse(&buf).unwrap();
    assert_eq!((g.rows, g.cols), (2, 2));
    assert_eq!(g.data, bits(&[1.0, 2.0, 3.0, 4.0]));
}

#[test]
fn parse_accepts_column_major_reference_writer() {
    // Column-major storage: the writer emits `fortran_order: True`, and the
    // parser must still hand the values back in row-major order.
    let a = Array2::from_shape_vec((2, 3).f(), vec![1.0f32, 4.0, 2.0, 5.0, 3.0, 6.0]).unwrap();
    assert_eq!(a[[0, 1]], 2.0);
    let mut buf: Vec<u8> = Vec::new();
    a.write_npy(&mut buf).unwrap();
    let g = parse(&buf).unwrap();
    assert_eq!((g.rows, g.cols), (2, 3));
    assert_eq!(g.data, bits(&[1.0, 2.0, 3.0, 4.0, 5.0, 6.0]));
}

#[test]
fn reference_reader_accepts_encode() {
    let g = grid(3, 2, &[9.0, -1.0, 0.25, 2.0, 7.5, -3.5]);
    let encoded = g.encode();
    let a = Array2::<f32>::read_npy(&encoded[..]).unwrap();
    assert_eq!(a.dim(), (3, 2));
    assert_eq!(a[[0, 0]], 9.0);
    assert_eq!(a[[0, 1]], -1.0);
    assert_eq!(a[[2, 1]], -3.5);
}

#[test]
fn parse_rejects_garbage() {
    assert!(parse(b"not a numpy file").is_err());
    assert!(parse(b"").is_err());
    // Truncated payload: drop the last byte of a valid file.
    let g = grid(2, 2, &[1.0, 2.0, 3.0, 4.0]);
    let mut encoded = g.encode();
    encoded.pop();
    assert!(parse(&encoded).is_err());
}

#[test]
fn matrix_frame_scenario() {
    // A 2x2 grid [[1,2],[3,4]]: frame 0 returns the full payload, frame 1
    // is refused as a client error.
    let g = grid(2, 2, &[1.0, 2.0, 3.0, 4.0]);
    let encoded = g.encode();
    let f = matrix_frame(&encoded, 0).unwrap();
    assert_eq!(f.width, 2);
    assert_eq!(f.height, 2);
    assert_eq!(f.min_temp, 1.0f32.to_bits());
    assert_eq!(f.max_temp, 4.0f32.to_bits());
    assert_eq!(f.pixels, bits(&[1.0, 2.0, 3.0, 4.0]));
    assert_eq!(matrix_frame(&encoded, 1).unwrap_err(), FrameQueryError::BadFrameIndex);
    assert_eq!(matrix_frame(b"junk", 0).unwrap_err(), FrameQueryError::Malformed);
}

#[test]
fn reduce_singleton() {
    let g = grid(1, 1, &[42.5]);
    let r = g.reduce();
    assert_eq!(r.min_temp, 42.5f32.to_bits());
    assert_eq!(r.max_temp, 42.5f32.to_bits());
}

#[test]
fn reduce_all_negative() {
    // The folds are seeded at the infinities, so all-negative data reduces
    // correctly (a zero or first-element seed would not).
    let g = grid(1, 3, &[-5.0, -1.0, -9.0]);
    let r = g.reduce();
    assert_eq!(r.min_temp, (-9.0f32).to_bits());
    assert_eq!(r.max_temp, (-1.0f32).to_bits());
}

#[test]
fn reduce_empty_grid() {
    let g = Grid { rows: 0, cols: 4, data: Vec::new() };
    let r = g.reduce();
    assert_eq!(r.min_temp, f32::INFINITY.to_bits());
    assert_eq!(r.max_temp, f32::NEG_INFINITY.to_bits());
}

#[test]
fn reduce_ignores_nan() {
    let g = grid(1, 3, &[f32::NAN, 2.0, 1.0]);
    let r = g.reduce();
    assert_eq!(r.min_temp, 1.0f32.to_bits());
    assert_eq!(r.max_temp, 2.0f32.to_bits());
}

#[test]
fn max_temp_of_defaults_to_zero_on_malformed() {
    assert_eq!(max_temp_of(b"definitely not a capture"), 0.0f32.to_bits());
    let g = grid(2, 2, &[1.0, 2.0, 3.0, 4.0]);
    assert_eq!(max_temp_of(&g.encode()), 4.0f32.to_bits());
}

#[test]
fn flatten_and_dimensions() {
    let g = grid(2, 2, &[1.0, 2.0, 3.0, 4.0]);
    assert_eq!(g.dimensions(), (2, 2));
    assert_eq!(g.flatten_row_major(), &bits(&[1.0, 2.0, 3.0, 4.0]));
}

// Builds a container by hand, in the spelling that pads the whole header to
// a multiple of 64 and closes the dictionary with `, }`.
fn handmade(dict: &str, payload: &[f32]) -> Vec<u8> {
    let unpadded = 10 + dict.len() + 1;
    let pad = (64 - unpadded % 64) % 64;
    let hlen = dict.len() + pad + 1;
    let mut v = vec![0x93u8];
    v.extend_from_slice(b"NUMPY");
    v.push(1);
    v.push(0);
    v.push((hlen % 256) as u8);
    v.push((hlen / 256) as u8);
    v.extend_from_slice(dict.as_bytes());
    v.extend(std::iter::repeat(b' ').take(pad));
    v.push(b'\n');
    for x in payload {
        v.extend_from_slice(&x.to_le_bytes());
    }
    v
}

#[test]
fn parse_accepts_trailing_comma_dictionary() {
    let v = handmade("{'descr': '<f4', 'fortran_order': False, 'shape': (1, 2), }", &[1.5, 2.5]);
    let g = parse(&v).unwrap();
    assert_eq!((g.rows, g.cols), (1, 2));
    assert_eq!(g.data, bits(&[1.5, 2.5]));
}

#[test]
fn parse_rejects_other_version() {
    let g = grid(1, 1, &[1.0]);
    let mut v = g.encode();
    v[6] = 2; // claim format version 2.0
    assert!(parse(&v).is_err());
}

#[test]
fn parse_rejects_big_endian_descriptor() {
    let v = handmade("{'descr': '>f4', 'fortran_order': False, 'shape': (1, 1), }", &[1.0]);
    assert!(parse(&v).is_err());
}

#[test]
fn parse_rejects_wrong_payload_size() {
    let v = handmade("{'descr': '<f4', 'fortran_order': False, 'shape': (2, 2), }", &[1.0, 2.0]);
    assert!(parse(&v).is_err());
}
