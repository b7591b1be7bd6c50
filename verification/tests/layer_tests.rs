use category_nn::errors::{CategoryError, CategoryResult};
use category_nn::layers::conv2d::{Conv2dConfig, Conv2dLayer};
use category_nn::layers::flatten::FlattenLayer;
use category_nn::layers::layer::Layer;
use category_nn::layers::linear::LinearLayer;
use category_nn::layers::maxpool2d::MaxPool2dLayer;
use category_nn::training::{count_correct, count_mismatch, positive_positions, zip_layers};

#[test]
fn conv2d_config_has_one_group() {
    let c = Conv2dConfig::new(3, 8, 5, 1, 2);
    assert_eq!(c.in_channels, 3);
    assert_eq!(c.out_channels, 8);
    assert_eq!(c.kernel_size, 5);
    assert_eq!(c.stride, 1);
    assert_eq!(c.padding, 2);
    assert_eq!(c.groups, 1);
}

#[test]
fn conv2d_layer_shapes() {
    let l = Conv2dLayer::new(Conv2dConfig::new(3, 8, 5, 1, 2));
    assert_eq!(l.features(), (3, 8));
    assert_eq!(l.fan_in(), 75);
    assert_eq!(l.weight_dims(), [8, 3, 5, 5]);
    assert_eq!(l.bias_dims(), (1, 8, 1, 1));
    let mut grouped = Conv2dConfig::new(4, 6, 3, 1, 0);
    grouped.groups = 2;
    let g = Conv2dLayer::new(grouped);
    assert_eq!(g.fan_in(), 18);
    assert_eq!(g.weight_dims(), [6, 2, 3, 3]);
}

#[test]
fn linear_layer_features() {
    let l = LinearLayer::new(784, 10);
    assert_eq!(l.features(), (784, 10));
    assert_eq!(l.in_features, 784);
    assert_eq!(l.out_features, 10);
}

#[test]
fn maxpool_halves_each_side() {
    let p = MaxPool2dLayer::new(2);
    assert_eq!(p.stride, 2);
    assert_eq!(p.output_dims((16, 1, 28, 28)), (16, 1, 14, 14));
    assert_eq!(p.output_dims((1, 3, 5, 7)), (1, 3, 2, 3));
    assert_eq!(p.window_len(), 4);
    let q = MaxPool2dLayer::new(3);
    assert_eq!(q.output_dims((2, 4, 9, 3)), (2, 4, 3, 1));
    assert_eq!(q.window_len(), 9);
}

#[test]
fn flatten_shapes() {
    let f = FlattenLayer;
    assert_eq!(f.output_dims(&vec![4, 3, 2, 2], 48), Some((4, 12)));
    assert_eq!(f.output_dims(&vec![5], 5), Some((5, 1)));
    assert_eq!(f.output_dims(&vec![0, 3], 0), None);
    let d = f.derivative_for(&vec![4, 3, 2, 2]);
    assert_eq!(d.input_shape, vec![4, 3, 2, 2]);
}

#[test]
fn error_messages() {
    let e = CategoryError::ShapeMismatch { expected: vec![1, 2], found: vec![3] };
    assert_eq!(e.message(), "shape mismatch: expected [1, 2], found [3]");
    let empty = CategoryError::ShapeMismatch { expected: vec![], found: vec![10, 200, 3000] };
    assert_eq!(empty.message(), "shape mismatch: expected [], found [10, 200, 3000]");
    assert_eq!(CategoryError::InvalidInput("x".into()).message(), "invalid input: x");
    assert_eq!(CategoryError::NumericalError("nan".into()).message(), "numerical error: nan");
    assert_eq!(CategoryError::Backend("cuda".into()).message(), "backend error: cuda");
}

#[test]
fn errors_from_outside_crates() {
    let shape = ndarray::ShapeError::from_kind(ndarray::ErrorKind::IncompatibleShape);
    let text = shape.to_string();
    match CategoryError::from_shape_error(shape) {
        CategoryError::InvalidInput(msg) => {
            assert_eq!(msg, format!("ndarray shape error: {text}"));
            assert!(msg.len() > "ndarray shape error: ".len());
        }
        other => panic!("unexpected {other:?}"),
    }
    let io = std::io::Error::new(std::io::ErrorKind::NotFound, "no such file");
    match CategoryError::from_io_error(io) {
        CategoryError::Backend(msg) => assert_eq!(msg, "io error: no such file"),
        other => panic!("unexpected {other:?}"),
    }
    let candle = candle_core::Error::Msg("device lost".to_string());
    match CategoryError::from_candle_error(candle) {
        CategoryError::Backend(msg) => assert_eq!(msg, "device lost"),
        other => panic!("unexpected {other:?}"),
    }
}

#[test]
fn count_mismatch_text() {
    match count_mismatch("layer count mismatch: ", 2, 3) {
        CategoryError::InvalidInput(msg) => assert_eq!(msg, "layer count mismatch: 2 vs 3"),
        other => panic!("unexpected {other:?}"),
    }
    assert_eq!(
        count_mismatch("param count mismatch: ", 10, 0).message(),
        "invalid input: param count mismatch: 10 vs 0"
    );
}

fn add(a: &i32, b: &i32) -> CategoryResult<i32> {
    Ok(a + b)
}

fn no_negatives(a: &i32, b: &i32) -> CategoryResult<i32> {
    if *b < 0 {
        Err(CategoryError::NumericalError(format!("negative {b}")))
    } else {
        Ok(a - b)
    }
}

#[test]
fn zip_layers_combines_pairwise() {
    assert_eq!(zip_layers(&[1, 2, 3], &[10, 20, 30], add, "p: ").unwrap(), vec![11, 22, 33]);
    assert_eq!(zip_layers::<i32, _>(&[], &[], add, "p: ").unwrap(), Vec::<i32>::new());
    match zip_layers(&[1, 2], &[1], add, "layer count mismatch: ") {
        Err(CategoryError::InvalidInput(msg)) => assert_eq!(msg, "layer count mismatch: 2 vs 1"),
        _ => panic!("lengths differ"),
    }
    match zip_layers(&[5, 5, 5], &[1, -2, -3], no_negatives, "p: ") {
        Err(CategoryError::NumericalError(msg)) => assert_eq!(msg, "negative -2"),
        _ => panic!("the first failure stops the zip"),
    }
}

#[test]
fn positives_pair_left_and_right_views() {
    assert_eq!(positive_positions(2), vec![2, 7, 8, 13]);
    assert_eq!(positive_positions(1), vec![1, 2]);
    assert!(positive_positions(0).is_empty());
    let b = 5;
    let pos = positive_positions(b);
    for i in 0..2 * b {
        let j = pos[i] % (2 * b);
        assert_ne!(j, i);
        assert_eq!(pos[j] % (2 * b), i);
        assert_eq!(pos[i] / (2 * b), i);
    }
}

#[test]
fn count_correct_counts_matching_predictions() {
    let predicted = [Some(1u8), None, Some(3), Some(0), Some(7)];
    let labels = [1u8, 2, 4, 0, 7];
    assert_eq!(count_correct(&predicted, &labels), 3);
    assert_eq!(count_correct(&[], &[]), 0);
    assert_eq!(count_correct(&[None, None], &[0, 0]), 0);
}
