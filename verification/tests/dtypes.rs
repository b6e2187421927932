use safetensors_core::Dtype;

const ALL: [Dtype; 19] = [
    Dtype::BOOL,
    Dtype::F4,
    Dtype::F6E2M3,
    Dtype::F6E3M2,
    Dtype::U8,
    Dtype::I8,
    Dtype::F8E5M2,
    Dtype::F8E4M3,
    Dtype::F8E8M0,
    Dtype::I16,
    Dtype::U16,
    Dtype::F16,
    Dtype::BF16,
    Dtype::I32,
    Dtype::U32,
    Dtype::F32,
    Dtype::F64,
    Dtype::I64,
    Dtype::U64,
];

fn alignment(d: Dtype) -> usize {
    let bits = d.bit_size();
    if bits <= 8 {
        1
    } else {
        bits / 8
    }
}

#[test]
fn bit_sizes() {
    assert_eq!(Dtype::BOOL.bit_size(), 8);
    assert_eq!(Dtype::F4.bit_size(), 4);
    assert_eq!(Dtype::F6E2M3.bit_size(), 6);
    assert_eq!(Dtype::F6E3M2.bit_size(), 6);
    assert_eq!(Dtype::U8.bit_size(), 8);
    assert_eq!(Dtype::I8.bit_size(), 8);
    assert_eq!(Dtype::F8E5M2.bit_size(), 8);
    assert_eq!(Dtype::F8E4M3.bit_size(), 8);
    assert_eq!(Dtype::F8E8M0.bit_size(), 8);
    assert_eq!(Dtype::I16.bit_size(), 16);
    assert_eq!(Dtype::U16.bit_size(), 16);
    assert_eq!(Dtype::F16.bit_size(), 16);
    assert_eq!(Dtype::BF16.bit_size(), 16);
    assert_eq!(Dtype::I32.bit_size(), 32);
    assert_eq!(Dtype::U32.bit_size(), 32);
    assert_eq!(Dtype::F32.bit_size(), 32);
    assert_eq!(Dtype::F64.bit_size(), 64);
    assert_eq!(Dtype::I64.bit_size(), 64);
    assert_eq!(Dtype::U64.bit_size(), 64);
}

#[test]
fn byte_sizes() {
    assert_eq!(Dtype::BOOL.size(), Some(1));
    assert_eq!(Dtype::F4.size(), None);
    assert_eq!(Dtype::F6E2M3.size(), None);
    assert_eq!(Dtype::F6E3M2.size(), None);
    assert_eq!(Dtype::I32.size(), Some(4));
    assert_eq!(Dtype::F64.size(), Some(8));
}

#[test]
fn declared_order_is_alignment_monotone() {
    for a in ALL {
        for b in ALL {
            if a.ordinal() <= b.ordinal() {
                assert!(alignment(a) <= alignment(b));
            }
        }
    }
}

#[test]
fn ordinals_enumerate_declaration_order() {
    for (i, d) in ALL.iter().enumerate() {
        assert_eq!(d.ordinal(), i);
    }
}
