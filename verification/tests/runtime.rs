use onnx_rustime::classify::top_k;
use onnx_rustime::error::OnnxError;
use onnx_rustime::model::{decode_model, Attr, AttrValue, Model, Node, OpKind, ATTR_ALPHA,
    ATTR_AXIS, ATTR_KERNEL_SHAPE, ATTR_PADS, ATTR_SHAPE, ATTR_STRIDES, ATTR_TRANS_B};
use onnx_rustime::ops::{add_t, concat_axis, conv, flatten, gemm, globalavg, pool, relu, reshape};
use onnx_rustime::run::run;
use onnx_rustime::tensor::{Dtype, Tensor};

fn t32(shape: Vec<usize>, data: Vec<i32>) -> Tensor {
    Tensor::new(Dtype::I32, shape, data).unwrap()
}

fn node(op: OpKind, ins: &[&str], outs: &[&str], attrs: Vec<Attr>) -> Node {
    Node {
        op,
        inputs: ins.iter().map(|s| s.as_bytes().to_vec()).collect(),
        outputs: outs.iter().map(|s| s.as_bytes().to_vec()).collect(),
        attrs,
    }
}

#[test]
fn single_node_one_by_one_conv_doubles_input() {
    // a 1x1 convolution with weight 2 and zero bias applied to [[1, 2, 3]]
    let model = Model {
        initializers: vec![
            (b"w".to_vec(), t32(vec![1, 1, 1, 1], vec![2])),
            (b"b".to_vec(), t32(vec![1], vec![0])),
        ],
        nodes: vec![node(OpKind::Conv, &["x", "w", "b"], &["y"], vec![])],
        input_name: b"x".to_vec(),
        output_name: b"y".to_vec(),
    };
    let input = t32(vec![1, 1, 1, 3], vec![1, 2, 3]);
    let out = run(&model, &input).unwrap();
    assert_eq!(out.shape, vec![1, 1, 1, 3]);
    assert_eq!(out.data, vec![2, 4, 6]);
}

#[test]
fn run_is_deterministic() {
    let model = Model {
        initializers: vec![(b"w".to_vec(), t32(vec![2, 1, 1, 2], vec![1, -1, 2, 3]))],
        nodes: vec![
            node(OpKind::Conv, &["x", "w"], &["c"], vec![]),
            node(OpKind::Relu, &["c"], &["y"], vec![]),
        ],
        input_name: b"x".to_vec(),
        output_name: b"y".to_vec(),
    };
    let input = t32(vec![1, 1, 2, 2], vec![4, -5, 6, -7]);
    let a = run(&model, &input).unwrap();
    let b = run(&model, &input).unwrap();
    assert_eq!(a.shape, b.shape);
    assert_eq!(a.data, b.data);
    assert_eq!(a.dtype, b.dtype);
}

#[test]
fn conv_shape_law_example() {
    // input spatial size 224, kernel 11, stride 4, pad 2, dilation 1
    let x = t32(vec![1, 1, 224, 224], vec![0; 224 * 224]);
    let w = t32(vec![1, 1, 11, 11], vec![0; 121]);
    let attrs = vec![
        Attr { key: ATTR_STRIDES, value: AttrValue::Ints(vec![4, 4]) },
        Attr { key: ATTR_PADS, value: AttrValue::Ints(vec![2, 2, 2, 2]) },
    ];
    let y = conv(&x, &w, None, &attrs).unwrap();
    assert_eq!(y.shape, vec![1, 1, 55, 55]);
}

#[test]
fn conv_padding_and_stride_values() {
    // one channel, 1x3 input, kernel of width 3, pad 1: sliding cross-correlation
    let x = t32(vec![1, 1, 1, 3], vec![1, 2, 3]);
    let w = t32(vec![1, 1, 1, 3], vec![1, 10, 100]);
    let attrs = vec![Attr { key: ATTR_PADS, value: AttrValue::Ints(vec![0, 1, 0, 1]) }];
    let y = conv(&x, &w, None, &attrs).unwrap();
    assert_eq!(y.shape, vec![1, 1, 1, 3]);
    // windows over [0 1 2 3 0]: 1*0+10*1+100*2, 1*1+10*2+100*3, 1*2+10*3+100*0
    assert_eq!(y.data, vec![210, 321, 32]);
}

#[test]
fn batchnorm_identity_case() {
    // mean 0, variance 1, scale 1, shift 0: the output equals the input
    let model = Model {
        initializers: vec![
            (b"s".to_vec(), t32(vec![2], vec![1, 1])),
            (b"sh".to_vec(), t32(vec![2], vec![0, 0])),
            (b"m".to_vec(), t32(vec![2], vec![0, 0])),
            (b"v".to_vec(), t32(vec![2], vec![1, 1])),
        ],
        nodes: vec![node(
            OpKind::BatchNormalization,
            &["x", "s", "sh", "m", "v"],
            &["y"],
            vec![],
        )],
        input_name: b"x".to_vec(),
        output_name: b"y".to_vec(),
    };
    let input = t32(vec![1, 2, 1, 2], vec![5, -3, 7, 0]);
    let out = run(&model, &input).unwrap();
    assert_eq!(out.shape, vec![1, 2, 1, 2]);
    assert_eq!(out.data, vec![5, -3, 7, 0]);
}

#[test]
fn missing_input_aborts_run() {
    // the second node references an output name no earlier node produced
    let model = Model {
        initializers: vec![],
        nodes: vec![
            node(OpKind::Relu, &["x"], &["a"], vec![]),
            node(OpKind::Relu, &["nowhere"], &["y"], vec![]),
        ],
        input_name: b"x".to_vec(),
        output_name: b"y".to_vec(),
    };
    let input = t32(vec![2], vec![1, -1]);
    assert_eq!(run(&model, &input).unwrap_err(), OnnxError::MissingInput);
}

#[test]
fn unknown_operator_tag_aborts_run() {
    let model = Model {
        initializers: vec![],
        nodes: vec![node(OpKind::Other(99), &["x"], &["y"], vec![])],
        input_name: b"x".to_vec(),
        output_name: b"y".to_vec(),
    };
    let input = t32(vec![1], vec![1]);
    assert_eq!(run(&model, &input).unwrap_err(), OnnxError::UnknownOp);
}

#[test]
fn unproduced_output_is_missing_input() {
    let model = Model {
        initializers: vec![],
        nodes: vec![],
        input_name: b"x".to_vec(),
        output_name: b"y".to_vec(),
    };
    let input = t32(vec![1], vec![1]);
    assert_eq!(run(&model, &input).unwrap_err(), OnnxError::MissingInput);
}

#[test]
fn model_bytes_decode_and_run() {
    // version 1, no initializers, one relu node x -> y
    let bytes: Vec<u8> = vec![
        1, // version
        0, 0, // initializer count
        1, 0, // node count
        1, // op tag: relu
        1, 1, b'x', // one input name
        1, 1, b'y', // one output name
        0, // no attributes
        1, b'x', // graph input
        1, b'y', // graph output
    ];
    let model = decode_model(&bytes).unwrap();
    let out = run(&model, &t32(vec![3], vec![-4, 0, 9])).unwrap();
    assert_eq!(out.data, vec![0, 0, 9]);
}

#[test]
fn truncated_model_file_is_decode_error() {
    let bytes: Vec<u8> = vec![
        1, 0, 0, 1, 0, 1, 1, 1, b'x', 1, 1, b'y', 0, 1, b'x', 1, b'y',
    ];
    assert!(decode_model(&bytes).is_ok());
    for cut in 0..bytes.len() {
        let shorter = bytes[..cut].to_vec();
        assert_eq!(decode_model(&shorter).unwrap_err(), OnnxError::Decode);
    }
}

#[test]
fn relu_thresholds_at_zero() {
    let y = relu(&t32(vec![4], vec![-5, 0, 3, -1]));
    assert_eq!(y.data, vec![0, 0, 3, 0]);
    assert_eq!(y.shape, vec![4]);
}

#[test]
fn reshape_keeps_order_and_count() {
    let x = t32(vec![2, 3], vec![1, 2, 3, 4, 5, 6]);
    let attrs = vec![Attr { key: ATTR_SHAPE, value: AttrValue::Ints(vec![3, 2]) }];
    let y = reshape(&x, &attrs).unwrap();
    assert_eq!(y.shape, vec![3, 2]);
    assert_eq!(y.data, vec![1, 2, 3, 4, 5, 6]);
    let bad = vec![Attr { key: ATTR_SHAPE, value: AttrValue::Ints(vec![4]) }];
    assert_eq!(reshape(&x, &bad).unwrap_err(), OnnxError::ShapeMismatch);
}

#[test]
fn flatten_splits_at_axis() {
    let x = t32(vec![2, 3, 4], (0..24).collect());
    let attrs = vec![Attr { key: ATTR_AXIS, value: AttrValue::Int(2) }];
    let y = flatten(&x, &attrs).unwrap();
    assert_eq!(y.shape, vec![6, 4]);
    assert_eq!(y.data, (0..24).collect::<Vec<i32>>());
}

#[test]
fn top_k_orders_and_breaks_ties_by_lower_index() {
    let t = t32(vec![2, 4], vec![5, 9, 9, 1, 0, 0, 0, 0]);
    let rows = top_k(&t, 3).unwrap();
    assert_eq!(rows.len(), 2);
    assert_eq!(rows[0], vec![(1, 9), (2, 9), (0, 5)]);
    assert_eq!(rows[1], vec![(0, 0), (1, 0), (2, 0)]);
}

#[test]
fn top_k_caps_at_class_count() {
    let t = t32(vec![1, 3], vec![3, 1, 2]);
    let rows = top_k(&t, 10).unwrap();
    assert_eq!(rows[0], vec![(0, 3), (2, 2), (1, 1)]);
    assert_eq!(
        top_k(&t32(vec![3], vec![1, 2, 3]), 1).unwrap_err(),
        OnnxError::ShapeMismatch
    );
}

#[test]
fn maxpool_and_avgpool_window() {
    let x = t32(vec![1, 1, 2, 2], vec![1, 5, 3, 2]);
    let attrs = vec![Attr { key: ATTR_KERNEL_SHAPE, value: AttrValue::Ints(vec![2, 2]) }];
    let mx = pool(&x, &attrs, false).unwrap();
    assert_eq!(mx.shape, vec![1, 1, 1, 1]);
    assert_eq!(mx.data, vec![5]);
    let av = pool(&x, &attrs, true).unwrap();
    assert_eq!(av.data, vec![2]); // (1 + 5 + 3 + 2) / 4, truncated
}

#[test]
fn avgpool_truncates_toward_zero() {
    let x = t32(vec![1, 1, 1, 2], vec![-3, 0]);
    let attrs = vec![Attr { key: ATTR_KERNEL_SHAPE, value: AttrValue::Ints(vec![1, 2]) }];
    let av = pool(&x, &attrs, true).unwrap();
    assert_eq!(av.data, vec![-1]);
}

#[test]
fn global_average_reduces_spatial_dims() {
    let x = t32(vec![1, 2, 1, 2], vec![1, 2, 3, 5]);
    let y = globalavg(&x).unwrap();
    assert_eq!(y.shape, vec![1, 2, 1, 1]);
    assert_eq!(y.data, vec![1, 4]);
}

#[test]
fn gemm_multiplies_with_bias_and_scales() {
    let a = t32(vec![2, 2], vec![1, 2, 3, 4]);
    let b = t32(vec![2, 2], vec![5, 6, 7, 8]);
    let y = gemm(&a, &b, None, &vec![]).unwrap();
    assert_eq!(y.shape, vec![2, 2]);
    assert_eq!(y.data, vec![19, 22, 43, 50]);
    let bias = t32(vec![2], vec![1, -1]);
    let attrs = vec![Attr { key: ATTR_ALPHA, value: AttrValue::Int(2) }];
    let y2 = gemm(&a, &b, Some(&bias), &attrs).unwrap();
    assert_eq!(y2.data, vec![39, 43, 87, 99]);
}

#[test]
fn gemm_transposes_operands() {
    let a = t32(vec![1, 2], vec![1, 2]);
    let b = t32(vec![2, 2], vec![5, 6, 7, 8]);
    let attrs = vec![Attr { key: ATTR_TRANS_B, value: AttrValue::Int(1) }];
    let y = gemm(&a, &b, None, &attrs).unwrap();
    assert_eq!(y.shape, vec![1, 2]);
    assert_eq!(y.data, vec![17, 23]);
}

#[test]
fn add_broadcasts_trailing_dimensions() {
    let a = t32(vec![2, 2], vec![1, 2, 3, 4]);
    let b = t32(vec![2], vec![10, 20]);
    let y = add_t(&a, &b).unwrap();
    assert_eq!(y.shape, vec![2, 2]);
    assert_eq!(y.data, vec![11, 22, 13, 24]);
    let s = t32(vec![1], vec![5]);
    let y2 = add_t(&a, &s).unwrap();
    assert_eq!(y2.data, vec![6, 7, 8, 9]);
    let bad = t32(vec![3], vec![1, 2, 3]);
    assert_eq!(add_t(&a, &bad).unwrap_err(), OnnxError::ShapeMismatch);
}

#[test]
fn concat_joins_along_the_axis() {
    let a = t32(vec![1, 2], vec![1, 2]);
    let b = t32(vec![2, 2], vec![3, 4, 5, 6]);
    let attrs = vec![Attr { key: ATTR_AXIS, value: AttrValue::Int(0) }];
    let y = concat_axis(&vec![a, b], &attrs).unwrap();
    assert_eq!(y.shape, vec![3, 2]);
    assert_eq!(y.data, vec![1, 2, 3, 4, 5, 6]);
    let c = t32(vec![2, 1], vec![7, 8]);
    let d = t32(vec![2, 2], vec![3, 4, 5, 6]);
    let attrs1 = vec![Attr { key: ATTR_AXIS, value: AttrValue::Int(1) }];
    let y1 = concat_axis(&vec![c, d], &attrs1).unwrap();
    assert_eq!(y1.shape, vec![2, 3]);
    assert_eq!(y1.data, vec![7, 3, 4, 8, 5, 6]);
}

#[test]
fn concat_rejects_mismatched_other_axes() {
    let a = t32(vec![1, 2], vec![1, 2]);
    let b = t32(vec![2, 3], vec![3, 4, 5, 6, 7, 8]);
    let attrs = vec![Attr { key: ATTR_AXIS, value: AttrValue::Int(0) }];
    assert_eq!(concat_axis(&vec![a, b], &attrs).unwrap_err(), OnnxError::ShapeMismatch);
}
