use safetensors_core::{
    make_view, prepare, serialize, Dtype, PairStrStr, PairStrTensorView, SafeTensorError,
    TensorView,
};

fn pair(name: &str, value: TensorView) -> PairStrTensorView {
    PairStrTensorView {
        key: name.to_string(),
        value,
    }
}

fn view(dtype: Dtype, shape: Vec<usize>, data: Vec<u8>) -> TensorView {
    make_view(dtype, shape, data).expect("view should validate")
}

fn split(out: &[u8]) -> (&[u8], &[u8]) {
    let mut len_bytes = [0u8; 8];
    len_bytes.copy_from_slice(&out[0..8]);
    let n = u64::from_le_bytes(len_bytes) as usize;
    (&out[8..8 + n], &out[8 + n..])
}

#[test]
fn scalar_float_scenario() {
    let v = view(Dtype::F32, vec![], vec![1, 2, 3, 4]);
    let out = serialize(vec![pair("w", v)], None).unwrap();
    let expected_header: &[u8] = b"{\"w\":{\"dtype\":\"F32\",\"shape\":[],\"data_offsets\":[0,4]}}";
    let (header, payload) = split(&out);
    assert_eq!(header, expected_header);
    assert_eq!(payload, &[1, 2, 3, 4]);
    assert_eq!(out.len(), 8 + expected_header.len() + 4);
}

#[test]
fn int32_2x3_scenario() {
    let data: Vec<u8> = (0..24).collect();
    assert_eq!(data.len(), 2 * 3 * 4);
    let v = view(Dtype::I32, vec![2, 3], data.clone());
    assert_eq!(v.data_len(), 24);
    let out = serialize(vec![pair("m", v)], None).unwrap();
    let (header, payload) = split(&out);
    let expected_header: &[u8] =
        b"{\"m\":{\"dtype\":\"I32\",\"shape\":[2,3],\"data_offsets\":[0,24]}}";
    assert_eq!(header, expected_header);
    assert_eq!(payload, &data[..]);
}

#[test]
fn mismatched_buffer_fails() {
    let r = make_view(Dtype::F32, vec![2, 2], vec![0; 15]);
    match r {
        Err(SafeTensorError::InvalidTensorView(d, shape, len)) => {
            assert_eq!(d, Dtype::F32);
            assert_eq!(shape, vec![2, 2]);
            assert_eq!(len, 15);
        }
        _ => panic!("expected InvalidTensorView"),
    }
}

#[test]
fn size_invariant_exact() {
    // exact length succeeds; one byte short or long fails
    assert!(make_view(Dtype::F32, vec![2, 2], vec![0; 16]).is_ok());
    assert!(matches!(
        make_view(Dtype::F32, vec![2, 2], vec![0; 15]),
        Err(SafeTensorError::InvalidTensorView(..))
    ));
    assert!(matches!(
        make_view(Dtype::F32, vec![2, 2], vec![0; 17]),
        Err(SafeTensorError::InvalidTensorView(..))
    ));
}

#[test]
fn empty_set_with_metadata() {
    let meta = vec![PairStrStr {
        key: "format".to_string(),
        value: "test".to_string(),
    }];
    let out = serialize(vec![], Some(meta)).unwrap();
    let expected_header: &[u8] = b"{\"__metadata__\":{\"format\":\"test\"}}";
    let (header, payload) = split(&out);
    assert_eq!(header, expected_header);
    assert_eq!(payload.len(), 0);
    assert_eq!(out.len(), 8 + expected_header.len());
}

#[test]
fn empty_set_without_metadata() {
    let out = serialize(vec![], None).unwrap();
    let (header, payload) = split(&out);
    assert_eq!(header, b"{}");
    assert_eq!(payload.len(), 0);
}

#[test]
fn sub_byte_dtype_rounds_up() {
    // 3 elements of 4 bits = 12 bits, packed into 2 bytes
    assert!(matches!(
        make_view(Dtype::F4, vec![3], vec![0; 1]),
        Err(SafeTensorError::InvalidTensorView(..))
    ));
    let v = view(Dtype::F4, vec![3], vec![0xAB, 0x0C]);
    assert_eq!(v.data_len(), 2);
    let out = serialize(vec![pair("q", v)], None).unwrap();
    let (header, payload) = split(&out);
    let expected_header: &[u8] = b"{\"q\":{\"dtype\":\"F4\",\"shape\":[3],\"data_offsets\":[0,2]}}";
    assert_eq!(header, expected_header);
    assert_eq!(payload, &[0xAB, 0x0C]);
}

#[test]
fn six_bit_dtype_rounds_up() {
    // 4 elements of 6 bits = 24 bits = exactly 3 bytes
    assert!(make_view(Dtype::F6E2M3, vec![4], vec![0; 3]).is_ok());
    assert!(make_view(Dtype::F6E2M3, vec![4], vec![0; 2]).is_err());
    assert!(make_view(Dtype::F6E3M2, vec![4], vec![0; 4]).is_err());
    // 5 elements of 6 bits = 30 bits, packed into 4 bytes
    assert!(make_view(Dtype::F6E3M2, vec![5], vec![0; 4]).is_ok());
}

#[test]
fn bool_is_one_byte_per_element() {
    assert!(make_view(Dtype::BOOL, vec![5], vec![0; 5]).is_ok());
    assert!(make_view(Dtype::BOOL, vec![5], vec![0; 1]).is_err());
}

#[test]
fn overflow_guard() {
    let r = make_view(Dtype::U8, vec![usize::MAX, 2], vec![]);
    assert!(matches!(r, Err(SafeTensorError::ValidationOverflow)));
    // the same shape smuggled past make_view still fails in serialize
    let v = TensorView::from_parts(Dtype::U8, vec![usize::MAX, 2], vec![]);
    let r = serialize(vec![pair("big", v)], None);
    assert!(matches!(r, Err(SafeTensorError::ValidationOverflow)));
    // a bit-level overflow: count fits, count * bit width does not
    let r = make_view(Dtype::U64, vec![usize::MAX / 8], vec![]);
    assert!(matches!(r, Err(SafeTensorError::ValidationOverflow)));
}

#[test]
fn zero_dimension_is_valid() {
    let v = view(Dtype::F32, vec![2, 0, 3], vec![]);
    assert_eq!(v.data_len(), 0);
    let out = serialize(vec![pair("z", v)], None).unwrap();
    let (header, payload) = split(&out);
    let expected_header: &[u8] =
        b"{\"z\":{\"dtype\":\"F32\",\"shape\":[2,0,3],\"data_offsets\":[0,0]}}";
    assert_eq!(header, expected_header);
    assert_eq!(payload.len(), 0);
}

#[test]
fn determinism_input_order() {
    let mk = || {
        (
            view(Dtype::U8, vec![2], vec![1, 2]),
            view(Dtype::U8, vec![3], vec![3, 4, 5]),
        )
    };
    let (a1, b1) = mk();
    let (a2, b2) = mk();
    let meta1 = vec![
        PairStrStr {
            key: "x".to_string(),
            value: "1".to_string(),
        },
        PairStrStr {
            key: "y".to_string(),
            value: "2".to_string(),
        },
    ];
    let meta2 = vec![
        PairStrStr {
            key: "y".to_string(),
            value: "2".to_string(),
        },
        PairStrStr {
            key: "x".to_string(),
            value: "1".to_string(),
        },
    ];
    let out1 = serialize(vec![pair("a", a1), pair("b", b1)], Some(meta1)).unwrap();
    let out2 = serialize(vec![pair("b", b2), pair("a", a2)], Some(meta2)).unwrap();
    assert_eq!(out1, out2);
}

#[test]
fn duplicate_names_last_write_wins() {
    let early = view(Dtype::U8, vec![2], vec![9, 9]);
    let late = view(Dtype::U8, vec![2], vec![1, 2]);
    let only = view(Dtype::U8, vec![2], vec![1, 2]);
    let out_dup = serialize(vec![pair("t", early), pair("t", late)], None).unwrap();
    let out_single = serialize(vec![pair("t", only)], None).unwrap();
    assert_eq!(out_dup, out_single);
}

#[test]
fn tensors_sorted_by_name() {
    let b = view(Dtype::U8, vec![1], vec![7]);
    let a = view(Dtype::U8, vec![1], vec![8]);
    let out = serialize(vec![pair("b", b), pair("a", a)], None).unwrap();
    let (header, payload) = split(&out);
    let expected_header: &[u8] = b"{\"a\":{\"dtype\":\"U8\",\"shape\":[1],\"data_offsets\":[0,1]},\"b\":{\"dtype\":\"U8\",\"shape\":[1],\"data_offsets\":[1,2]}}";
    assert_eq!(header, expected_header);
    // payload follows the sorted order: a's byte first
    assert_eq!(payload, &[8, 7]);
}

#[test]
fn metadata_keys_sorted_and_deduplicated() {
    let meta = vec![
        PairStrStr {
            key: "b".to_string(),
            value: "old".to_string(),
        },
        PairStrStr {
            key: "a".to_string(),
            value: "1".to_string(),
        },
        PairStrStr {
            key: "b".to_string(),
            value: "2".to_string(),
        },
    ];
    let out = serialize(vec![], Some(meta)).unwrap();
    let (header, _) = split(&out);
    assert_eq!(header, b"{\"__metadata__\":{\"a\":\"1\",\"b\":\"2\"}}");
}

#[test]
fn empty_metadata_map_is_kept() {
    // an empty map is distinguished from an absent one
    let out = serialize(vec![], Some(vec![])).unwrap();
    let (header, _) = split(&out);
    assert_eq!(header, b"{\"__metadata__\":{}}");
}

#[test]
fn name_escaping_in_header() {
    let v = view(Dtype::U8, vec![1], vec![5]);
    let out = serialize(vec![pair("a\"b\\c\nd", v)], None).unwrap();
    let (header, _) = split(&out);
    let expected_header: &[u8] =
        b"{\"a\\\"b\\\\c\\nd\":{\"dtype\":\"U8\",\"shape\":[1],\"data_offsets\":[0,1]}}";
    assert_eq!(header, expected_header);
}

#[test]
fn control_character_escaping() {
    let meta = vec![PairStrStr {
        key: "k".to_string(),
        value: "\u{1}\u{1f}".to_string(),
    }];
    let out = serialize(vec![], Some(meta)).unwrap();
    let (header, _) = split(&out);
    assert_eq!(header, b"{\"__metadata__\":{\"k\":\"\\u0001\\u001f\"}}");
}

#[test]
fn prepare_fails_fast_on_first_invalid() {
    let good = view(Dtype::U8, vec![1], vec![1]);
    let bad_first = TensorView::from_parts(Dtype::I16, vec![2], vec![0; 3]);
    let bad_second = TensorView::from_parts(Dtype::F32, vec![1], vec![0; 2]);
    let r = prepare(vec![
        pair("ok", good),
        pair("bad1", bad_first),
        pair("bad2", bad_second),
    ]);
    match r {
        Err(SafeTensorError::InvalidTensorView(d, shape, len)) => {
            assert_eq!(d, Dtype::I16);
            assert_eq!(shape, vec![2]);
            assert_eq!(len, 3);
        }
        _ => panic!("expected InvalidTensorView for the first bad entry"),
    }
}

#[test]
fn serialize_rejects_unvalidated_view() {
    let smuggled = TensorView::from_parts(Dtype::F32, vec![2, 2], vec![0; 15]);
    let r = serialize(vec![pair("x", smuggled)], None);
    assert!(matches!(r, Err(SafeTensorError::InvalidTensorView(..))));
}

#[test]
fn view_accessors() {
    let v = view(Dtype::BF16, vec![4, 2], vec![0; 16]);
    assert_eq!(v.dtype(), Dtype::BF16);
    assert_eq!(v.shape(), &vec![4, 2]);
    assert_eq!(v.data(), &[0u8; 16][..]);
    assert_eq!(v.data_len(), 16);
}

#[test]
fn convert_to_hashmap_string_gathers_pairs() {
    let dict = vec![
        PairStrStr {
            key: "a".to_string(),
            value: "1".to_string(),
        },
        PairStrStr {
            key: "b".to_string(),
            value: "2".to_string(),
        },
        PairStrStr {
            key: "a".to_string(),
            value: "3".to_string(),
        },
    ];
    let m = safetensors_core::convert_to_hashmap_string(dict)
        .unwrap()
        .unwrap();
    assert_eq!(m.len(), 2);
    assert_eq!(m["a"], "3");
    assert_eq!(m["b"], "2");
}

#[test]
fn convert_to_hashmap_usize_gathers_pairs() {
    let dict = vec![
        safetensors_core::PairStrUsize {
            key: "n".to_string(),
            value: 7,
        },
        safetensors_core::PairStrUsize {
            key: "m".to_string(),
            value: 9,
        },
    ];
    let m = safetensors_core::convert_to_hashmap_usize(dict).unwrap();
    assert_eq!(m.len(), 2);
    assert_eq!(m["n"], 7);
    assert_eq!(m["m"], 9);
}
