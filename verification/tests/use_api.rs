use std::cmp::Ordering;
use std::collections::HashSet;

use pbc_sdk::sbi::{FromToBits, Sbi1, Sbi128, Sbi16, Sbi32, Sbi64, Sbi8};
use pbc_sdk::zk::{SecretBinary, SecretVarId};
use pbc_sdk::zk_api::{
    get_secret_outputs, load_metadata, load_sbi, num_secret_variables, save_sbi,
    secret_variable_ids, set_secrets, set_secrets_of_single_type, set_secrets_with_ids,
    SecretEnv, SecretVar, SecretVarInput, SecretVarWithId,
};

#[test]
fn set_and_get() {
    let mut env = SecretEnv::new();
    let secrets = vec![SecretVarWithId {
        id: SecretVarId::new(55),
        value: vec![3, 0, 0, 0],
        metadata: vec![9, 0, 0, 0],
    }];

    set_secrets_with_ids(&mut env, secrets);

    assert_eq!(load_sbi::<Sbi32>(&env, SecretVarId::new(55)), Sbi32::from(3));
    assert_eq!(load_metadata::<i32>(&env, SecretVarId::new(55)), 9i32);
}

#[allow(deprecated)]
#[test]
fn num_secret_variables_test() {
    let mut env = SecretEnv::new();
    let secrets = vec![
        SecretVarInput {
            value: Sbi32::from(32),
            metadata: 12i32,
        },
        SecretVarInput {
            value: Sbi32::from(32),
            metadata: 12i32,
        },
        SecretVarInput {
            value: Sbi32::from(32),
            metadata: 12i32,
        },
    ];
    set_secrets_of_single_type(&mut env, secrets);

    assert_eq!(num_secret_variables(&env), 3);
}

#[test]
fn secret_ids_are_numbered_from_one() {
    let mut env = SecretEnv::new();
    let secrets = vec![
        SecretVarInput {
            value: Sbi32::from(32),
            metadata: 12i32,
        },
        SecretVarInput {
            value: Sbi32::from(33),
            metadata: 13i32,
        },
    ];
    set_secrets_of_single_type(&mut env, secrets);
    let ids: Vec<u32> = secret_variable_ids(&env).iter().map(|x| x.raw_id).collect();
    assert_eq!(ids, vec![1, 2]);
    assert_eq!(load_sbi::<Sbi32>(&env, SecretVarId::new(2)), Sbi32::from(33));
    assert_eq!(load_metadata::<i32>(&env, SecretVarId::new(1)), 12);
}

#[test]
fn set_secrets_numbers_plain_vars() {
    let mut env = SecretEnv::new();
    set_secrets(
        &mut env,
        vec![
            SecretVar { value: vec![7], metadata: vec![] },
            SecretVar { value: vec![8], metadata: vec![] },
        ],
    );
    assert_eq!(load_sbi::<u8>(&env, SecretVarId::new(2)), 8);
}

#[test]
fn saved_outputs_are_returned_in_order() {
    let mut env = SecretEnv::new();
    assert!(get_secret_outputs(&env).is_empty());
    save_sbi(&mut env, Sbi32::from(5));
    save_sbi(&mut env, 6u8);
    let outputs = get_secret_outputs(&env);
    assert_eq!(outputs.len(), 2);
    assert_eq!(outputs[0].value, vec![5, 0, 0, 0]);
    assert_eq!(outputs[1].value, vec![6]);
    assert!(outputs[1].metadata.is_empty());
}

#[test]
fn clone() {
    let x = Sbi8::from(0x33);
    assert_eq!(x, x.clone());
}

#[test]
fn sbi_arithmetic_wraps() {
    let a = Sbi8::from(120);
    let b = Sbi8::from(10);
    assert_eq!(a.add(b), Sbi8::from(-126));
    assert_eq!(Sbi8::from(-128).sub(Sbi8::from(1)), Sbi8::from(127));
    assert_eq!(Sbi8::from(6).mul(Sbi8::from(7)), Sbi8::from(42));
    assert_eq!(Sbi8::from(6).bitand(Sbi8::from(3)), Sbi8::from(2));
    assert_eq!(Sbi8::from(6).bitor(Sbi8::from(3)), Sbi8::from(7));
    assert_eq!(Sbi8::from(6).bitxor(Sbi8::from(3)), Sbi8::from(5));
    assert!(Sbi8::from(-1).lt(&Sbi8::from(0)));
    assert!(Sbi8::from(0).le(&Sbi8::from(0)));
}

#[test]
fn use_api_from_to_i8_specific() {
    let mut env = SecretEnv::new();
    let secrets = vec![
        SecretVarInput {
            value: Sbi32::from(32),
            metadata: 12i32,
        },
        SecretVarInput {
            value: Sbi32::from(32),
            metadata: 12i32,
        },
        SecretVarInput {
            value: Sbi32::from(32),
            metadata: 12i32,
        },
    ];
    set_secrets_of_single_type(&mut env, secrets);

    let ids: HashSet<u32> = secret_variable_ids(&env).iter().map(|x| x.raw_id).collect();
    assert_eq!(ids, HashSet::from([1, 2, 3]));
}

fn assert_from_to(value: Sbi8, bits: [Sbi1; 8]) {
    assert_eq!(value, Sbi8::from_le_bits(bits));
    assert_eq!(value.to_le_bits(), bits);
}

#[test]
fn sbi_from_to_i8_specific() {
    assert_from_to(Sbi8::from(0), [false; 8]);
    assert_from_to(
        Sbi8::from(1),
        [true, false, false, false, false, false, false, false],
    );
    assert_from_to(
        Sbi8::from(2),
        [false, true, false, false, false, false, false, false],
    );
    assert_from_to(
        Sbi8::from(9),
        [true, false, false, true, false, false, false, false],
    );
    assert_from_to(
        Sbi8::from(127),
        [true, true, true, true, true, true, true, false],
    );
}

#[test]
fn from_to_negative_values() {
    assert_from_to(Sbi8::from(-1), [true; 8]);
    assert_from_to(
        Sbi8::from(-128),
        [false, false, false, false, false, false, false, true],
    );
}

#[test]
fn from_to_bits_roundtrip_all_widths() {
    for i in [i16::MIN, -2, 0, 1, 300, i16::MAX] {
        let e = Sbi16::from(i);
        assert_eq!(e, Sbi16::from_le_bits(e.to_le_bits()));
    }
    for i in [i32::MIN, -77, 0, 5, i32::MAX] {
        let e = Sbi32::from(i);
        assert_eq!(e, Sbi32::from_le_bits(e.to_le_bits()));
    }
    for i in [i64::MIN, -3, 0, 1 << 40, i64::MAX] {
        let e = Sbi64::from(i);
        assert_eq!(e, Sbi64::from_le_bits(e.to_le_bits()));
    }
    for i in [i128::MIN, -9, 0, 1 << 100, i128::MAX] {
        let e = Sbi128::from(i);
        assert_eq!(e, Sbi128::from_le_bits(e.to_le_bits()));
    }
    let bits = Sbi32::from(6).to_le_bits();
    assert!(!bits[0] && bits[1] && bits[2] && !bits[3]);
    assert!(!bits[31]);
    assert!(Sbi32::from(-1).to_le_bits()[31]);
}

#[test]
fn secret_binary_uses_state_format() {
    let mut out: Vec<u8> = Vec::new();
    Sbi32::from(-2).secret_write_to(&mut out);
    assert_eq!(out, vec![0xfe, 0xff, 0xff, 0xff]);
    let mut reader: &[u8] = &[7, 0, 0, 0, 9];
    let value = Sbi32::secret_read_from(&mut reader);
    assert_eq!(value, Sbi32::from(7));
    assert_eq!(reader, &[9]);
}

#[test]
fn sbi_comparisons() {
    let a = Sbi32::from(-5);
    let b = Sbi32::from(7);
    assert!(b.gt(&a));
    assert!(!a.gt(&b));
    assert!(a.ge(&a));
    assert!(!a.ge(&b));
    assert_eq!(a.partial_cmp(&b), Some(Ordering::Less));
    assert_eq!(b.partial_cmp(&a), Some(Ordering::Greater));
    assert_eq!(a.partial_cmp(&Sbi32::from(-5)), Some(Ordering::Equal));
    assert_eq!(Sbi8::from(i8::MAX).add(Sbi8::from(1)), Sbi8::from(i8::MIN));
    assert_eq!(Sbi32::from(1).shl(33), Sbi32::from(2));
    assert_eq!(Sbi32::from(-8).shr(1), Sbi32::from(-4));
}

fn example_computation(env: &SecretEnv) -> Sbi32 {
    let mut sum = Sbi32::from(0);
    for id in secret_variable_ids(env) {
        let metadata = load_metadata::<i32>(env, id);
        if metadata != 0 {
            let mut value = load_sbi::<Sbi32>(env, id);
            println!("Derp: {value:?}, {metadata:?}");
            if metadata == 2 {
                value = value.mul(Sbi32::from(2));
            }
            if metadata == 4 {
                value = value.shl(2);
            }
            sum = sum.add(value);
            println!("    {sum:?}");
        }
    }
    sum
}

#[test]
fn run_example_computation() {
    let mut env = SecretEnv::new();
    let secrets = vec![
        SecretVarInput {
            value: Sbi32::from(3),
            metadata: 1,
        },
        SecretVarInput {
            value: Sbi32::from(3),
            metadata: 0,
        },
        SecretVarInput {
            value: Sbi32::from(3),
            metadata: 0,
        },
        SecretVarInput {
            value: Sbi32::from(3),
            metadata: 2,
        },
        SecretVarInput {
            value: Sbi32::from(6),
            metadata: 4,
        },
        SecretVarInput {
            value: Sbi32::from(9),
            metadata: 2,
        },
    ];
    set_secrets_of_single_type(&mut env, secrets);

    let result = example_computation(&env);
    assert_eq!(result, Sbi32::from(51));
}
