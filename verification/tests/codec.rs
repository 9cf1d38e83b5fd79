use onnx_rustime::tensor::{Dtype, Tensor};
use onnx_rustime::wire::{decode_tensor, encode_tensor};
use onnx_rustime::error::OnnxError;

fn tensor(dtype: Dtype, shape: Vec<usize>, data: Vec<i32>) -> Tensor {
    Tensor::new(dtype, shape, data).unwrap()
}

fn assert_same(a: &Tensor, b: &Tensor) {
    assert_eq!(a.dtype, b.dtype);
    assert_eq!(a.shape, b.shape);
    assert_eq!(a.data, b.data);
}

#[test]
fn round_trip_i32_ranks_zero_to_four() {
    let cases: Vec<(Vec<usize>, Vec<i32>)> = vec![
        (vec![], vec![7]),
        (vec![3], vec![-1, 0, 2147483647]),
        (vec![2, 2], vec![-2147483648, 5, -6, 7]),
        (vec![1, 2, 2], vec![1, 2, 3, 4]),
        (vec![2, 1, 2, 2], vec![0, -1, 2, -3, 4, -5, 6, -7]),
    ];
    for (shape, data) in cases {
        let t = tensor(Dtype::I32, shape, data);
        let bytes = encode_tensor(&t);
        let back = decode_tensor(&bytes).unwrap();
        assert_same(&t, &back);
    }
}

#[test]
fn round_trip_i8_ranks_zero_to_four() {
    let cases: Vec<(Vec<usize>, Vec<i32>)> = vec![
        (vec![], vec![-128]),
        (vec![2], vec![127, -1]),
        (vec![2, 2], vec![0, 1, -2, 3]),
        (vec![1, 1, 3], vec![5, -5, 9]),
        (vec![1, 2, 1, 2], vec![1, 2, 3, 4]),
    ];
    for (shape, data) in cases {
        let t = tensor(Dtype::I8, shape, data);
        let bytes = encode_tensor(&t);
        let back = decode_tensor(&bytes).unwrap();
        assert_same(&t, &back);
    }
}

#[test]
fn round_trip_bytes_to_bytes() {
    // dtype I32, rank 1, one dim of 2, elements biased by 2^31
    let bytes: Vec<u8> = vec![
        2, 1, 2, 0, 0, 0, // header and dims
        0, 0, 0, 0x80, // element 0
        1, 0, 0, 0x80, // element 1
    ];
    let t = decode_tensor(&bytes).unwrap();
    assert_eq!(t.data, vec![0, 1]);
    let again = encode_tensor(&t);
    assert_eq!(again, bytes);
}

#[test]
fn decode_rejects_unknown_tag() {
    let bytes: Vec<u8> = vec![9, 0];
    assert_eq!(decode_tensor(&bytes).unwrap_err(), OnnxError::Decode);
}

#[test]
fn decode_rejects_truncated_tensor() {
    let t = tensor(Dtype::I32, vec![2], vec![10, -10]);
    let mut bytes = encode_tensor(&t);
    bytes.pop();
    assert_eq!(decode_tensor(&bytes).unwrap_err(), OnnxError::Decode);
}

#[test]
fn decode_rejects_trailing_bytes() {
    let t = tensor(Dtype::I8, vec![1], vec![3]);
    let mut bytes = encode_tensor(&t);
    bytes.push(0);
    assert_eq!(decode_tensor(&bytes).unwrap_err(), OnnxError::Decode);
}

#[test]
fn tensor_new_validates_shape_and_range() {
    assert_eq!(
        Tensor::new(Dtype::I32, vec![2], vec![1]).unwrap_err(),
        OnnxError::ShapeMismatch
    );
    assert_eq!(
        Tensor::new(Dtype::I8, vec![1], vec![128]).unwrap_err(),
        OnnxError::ShapeMismatch
    );
    assert_eq!(
        Tensor::new(Dtype::I32, vec![1, 2, 3, 4, 5], vec![0; 120]).unwrap_err(),
        OnnxError::ShapeMismatch
    );
    assert!(Tensor::new(Dtype::I8, vec![2], vec![-128, 127]).is_ok());
}
