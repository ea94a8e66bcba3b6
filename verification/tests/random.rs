use fastxfix::{common_prefix, common_prefix_raw, common_suffix, common_suffix_raw};
use std::iter;
use ya_rand::{new_rng_secure, Generator, SecureRng};

const VEC_LEN: usize = 1 << 15;
const BASE_LEN: usize = 19;
const EXT_LEN: usize = 13;
const TOTAL_LEN: usize = BASE_LEN + EXT_LEN;

fn random_ascii(rng: &mut SecureRng) -> char {
    rng.bits(7) as u8 as char
}

fn random_char(rng: &mut SecureRng) -> char {
    loop {
        // 2^21 is the smallest power-of-two value outside of
        // the maximum valid UTF-8 character range.
        let val = rng.bits(21) as u32;
        match char::from_u32(val) {
            Some(c) => return c,
            None => continue,
        }
    }
}

fn new_string_with<const SIZE: usize, F>(f: F) -> String
where
    F: FnMut() -> char,
{
    iter::repeat_with(f).take(SIZE).collect()
}

fn new_vec_with<const SIZE: usize, F>(f: F) -> Vec<u64>
where
    F: FnMut() -> u64,
{
    iter::repeat_with(f).take(SIZE).collect()
}

#[test]
fn prefix_ascii() {
    let mut rng = new_rng_secure();
    let base = new_string_with::<BASE_LEN, _>(|| random_ascii(&mut rng));
    let mut strings = vec![String::with_capacity(TOTAL_LEN); VEC_LEN];
    strings.iter_mut().for_each(|s| {
        let ext = new_string_with::<EXT_LEN, _>(|| random_ascii(&mut rng));
        s.push_str(&base);
        s.push_str(&ext);
    });
    let prefix = common_prefix(&strings).unwrap();
    assert_eq!(base, prefix);
}

#[test]
fn suffix_ascii() {
    let mut rng = new_rng_secure();
    let base = new_string_with::<BASE_LEN, _>(|| random_ascii(&mut rng));
    let mut strings = vec![String::with_capacity(TOTAL_LEN); VEC_LEN];
    strings.iter_mut().for_each(|s| {
        let ext = new_string_with::<EXT_LEN, _>(|| random_ascii(&mut rng));
        s.push_str(&ext);
        s.push_str(&base);
    });
    let suffix = common_suffix(&strings).unwrap();
    assert_eq!(base, suffix);
}

#[test]
fn prefix_char() {
    let mut rng = new_rng_secure();
    let base = new_string_with::<BASE_LEN, _>(|| random_char(&mut rng));
    let mut strings = vec![String::with_capacity(TOTAL_LEN * 4); VEC_LEN];
    strings.iter_mut().for_each(|s| {
        let ext = new_string_with::<EXT_LEN, _>(|| random_char(&mut rng));
        s.push_str(&base);
        s.push_str(&ext);
    });
    let prefix = common_prefix(&strings).unwrap();
    assert_eq!(base, prefix);
}

#[test]
fn suffix_char() {
    let mut rng = new_rng_secure();
    let base = new_string_with::<BASE_LEN, _>(|| random_char(&mut rng));
    let mut strings = vec![String::with_capacity(TOTAL_LEN * 4); VEC_LEN];
    strings.iter_mut().for_each(|s| {
        let ext = new_string_with::<EXT_LEN, _>(|| random_char(&mut rng));
        s.push_str(&ext);
        s.push_str(&base);
    });
    let suffix = common_suffix(&strings).unwrap();
    assert_eq!(base, suffix);
}

#[test]
fn prefix_generic() {
    let mut rng = new_rng_secure();
    let base = new_vec_with::<BASE_LEN, _>(|| rng.u64());
    let mut nested = vec![Vec::with_capacity(TOTAL_LEN); VEC_LEN];
    nested.iter_mut().for_each(|cur| {
        let ext = new_vec_with::<EXT_LEN, _>(|| rng.u64());
        cur.extend_from_slice(&base);
        cur.extend_from_slice(&ext);
    });
    let prefix = common_prefix_raw(&nested).unwrap();
    assert_eq!(base, prefix);
}

#[test]
fn suffix_generic() {
    let mut rng = new_rng_secure();
    let base = new_vec_with::<BASE_LEN, _>(|| rng.u64());
    let mut nested = vec![Vec::with_capacity(TOTAL_LEN); VEC_LEN];
    nested.iter_mut().for_each(|cur| {
        let ext = new_vec_with::<EXT_LEN, _>(|| rng.u64());
        cur.extend_from_slice(&ext);
        cur.extend_from_slice(&base);
    });
    let prefix = common_suffix_raw(&nested).unwrap();
    assert_eq!(base, prefix);
}
