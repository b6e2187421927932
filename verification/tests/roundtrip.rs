//! Round-trip checks: output of this crate read back through the reference
//! reader and an independent JSON parser.

use safetensors_core::{make_view, serialize, Dtype, PairStrStr, PairStrTensorView};

fn pair(name: &str, dtype: Dtype, shape: Vec<usize>, data: Vec<u8>) -> PairStrTensorView {
    PairStrTensorView {
        key: name.to_string(),
        value: make_view(dtype, shape, data).expect("view should validate"),
    }
}

fn header_value(out: &[u8]) -> serde_json::Value {
    let mut len_bytes = [0u8; 8];
    len_bytes.copy_from_slice(&out[0..8]);
    let n = u64::from_le_bytes(len_bytes) as usize;
    serde_json::from_slice(&out[8..8 + n]).expect("header must be valid JSON")
}

#[test]
fn roundtrip_header_json() {
    let d_a: Vec<u8> = (0..8).collect();
    let d_b: Vec<u8> = (10..22).collect();
    let out = serialize(
        vec![
            pair("beta", Dtype::I16, vec![2, 3], d_b.clone()),
            pair("alpha", Dtype::F64, vec![1], d_a.clone()),
        ],
        Some(vec![PairStrStr {
            key: "format".to_string(),
            value: "pt".to_string(),
        }]),
    )
    .unwrap();
    let header = header_value(&out);
    assert_eq!(header["__metadata__"]["format"], "pt");
    assert_eq!(header["alpha"]["dtype"], "F64");
    assert_eq!(header["alpha"]["shape"].as_array().unwrap().len(), 1);
    assert_eq!(header["alpha"]["shape"][0], 1);
    assert_eq!(header["alpha"]["data_offsets"][0], 0);
    assert_eq!(header["alpha"]["data_offsets"][1], 8);
    assert_eq!(header["beta"]["dtype"], "I16");
    assert_eq!(header["beta"]["shape"][0], 2);
    assert_eq!(header["beta"]["shape"][1], 3);
    assert_eq!(header["beta"]["data_offsets"][0], 8);
    assert_eq!(header["beta"]["data_offsets"][1], 20);
    // payload bytes are recoverable by slicing the offsets back out
    let mut len_bytes = [0u8; 8];
    len_bytes.copy_from_slice(&out[0..8]);
    let n = u64::from_le_bytes(len_bytes) as usize;
    let payload = &out[8 + n..];
    assert_eq!(&payload[0..8], &d_a[..]);
    assert_eq!(&payload[8..20], &d_b[..]);
    assert_eq!(payload.len(), 20);
}

#[test]
fn offsets_contiguous_in_output_order() {
    let out = serialize(
        vec![
            pair("c", Dtype::U8, vec![3], vec![1, 2, 3]),
            pair("a", Dtype::U8, vec![2], vec![4, 5]),
            pair("b", Dtype::U8, vec![4], vec![6, 7, 8, 9]),
        ],
        None,
    )
    .unwrap();
    let header = header_value(&out);
    let names = ["a", "b", "c"];
    let mut cursor = 0u64;
    for name in names {
        let begin = header[name]["data_offsets"][0].as_u64().unwrap();
        let end = header[name]["data_offsets"][1].as_u64().unwrap();
        assert_eq!(begin, cursor, "each entry begins where the last ended");
        assert!(end >= begin);
        cursor = end;
    }
    let mut len_bytes = [0u8; 8];
    len_bytes.copy_from_slice(&out[0..8]);
    let n = u64::from_le_bytes(len_bytes) as usize;
    assert_eq!(cursor as usize, out.len() - 8 - n);
}

#[test]
fn roundtrip_reference_reader() {
    let d_w: Vec<u8> = vec![0, 0, 128, 63];
    let d_m: Vec<u8> = (0..24).collect();
    let out = serialize(
        vec![
            pair("w", Dtype::F32, vec![], d_w.clone()),
            pair("m", Dtype::I32, vec![2, 3], d_m.clone()),
        ],
        None,
    )
    .unwrap();
    let parsed = safetensors::SafeTensors::deserialize(&out).expect("reference reader accepts");
    assert_eq!(parsed.len(), 2);
    let w = parsed.tensor("w").unwrap();
    assert_eq!(w.dtype(), safetensors::Dtype::F32);
    assert_eq!(w.shape(), &[] as &[usize]);
    assert_eq!(w.data(), &d_w[..]);
    let m = parsed.tensor("m").unwrap();
    assert_eq!(m.dtype(), safetensors::Dtype::I32);
    assert_eq!(m.shape(), &[2, 3]);
    assert_eq!(m.data(), &d_m[..]);
}

#[test]
fn roundtrip_reference_reader_with_metadata() {
    let out = serialize(
        vec![pair("t", Dtype::U16, vec![2], vec![1, 0, 2, 0])],
        Some(vec![PairStrStr {
            key: "origin".to_string(),
            value: "unit test".to_string(),
        }]),
    )
    .unwrap();
    let parsed = safetensors::SafeTensors::deserialize(&out).unwrap();
    let t = parsed.tensor("t").unwrap();
    assert_eq!(t.dtype(), safetensors::Dtype::U16);
    assert_eq!(t.data(), &[1, 0, 2, 0]);
}

#[test]
fn escaped_name_survives_roundtrip() {
    let name = "odd \"name\"\twith\\escapes";
    let out = serialize(
        vec![pair(name, Dtype::U8, vec![2], vec![11, 22])],
        None,
    )
    .unwrap();
    let header = header_value(&out);
    assert_eq!(header[name]["dtype"], "U8");
    let parsed = safetensors::SafeTensors::deserialize(&out).unwrap();
    assert_eq!(parsed.tensor(name).unwrap().data(), &[11, 22]);
}

#[test]
fn sub_byte_dtype_names_match_reference() {
    // one byte holds two 4-bit elements; the reference reader accepts the
    // byte-aligned case
    let out = serialize(vec![pair("h", Dtype::F4, vec![2], vec![0x3A])], None).unwrap();
    let header = header_value(&out);
    assert_eq!(header["h"]["dtype"], "F4");
    let parsed = safetensors::SafeTensors::deserialize(&out).unwrap();
    assert_eq!(parsed.tensor("h").unwrap().dtype(), safetensors::Dtype::F4);
    assert_eq!(parsed.tensor("h").unwrap().data(), &[0x3A]);
}
