use patraswap::lottery::{get_winning_number, rank, Rank};
use patraswap::pixel::{Patrapixel, PixelError, PixelUpdate, CANVAS_SIZE, DOTS};
use patraswap::AccountId;

#[test]
fn blank_canvas() {
    let canvas = Patrapixel::new();
    let pixels = canvas.metadata();
    assert_eq!(pixels.len(), CANVAS_SIZE);
    assert_eq!(CANVAS_SIZE, 160 * 90);
    assert!(pixels.iter().all(|p| *p == 0));
}

#[test]
fn paint_pixels_in_order() {
    let mut canvas = Patrapixel::new();
    let who = AccountId { bytes: [3; 32] };
    let points = vec![(0u32, 5u8), (14_399, 7), (0, 9), (14_400, 1)];
    let r = canvas.update(who, 4 * DOTS, &points);
    assert_eq!(r, Ok(PixelUpdate { creator: who }));
    let pixels = canvas.metadata();
    assert_eq!(pixels[0], 9);
    assert_eq!(pixels[14_399], 7);
    assert_eq!(pixels[1], 0);
    assert_eq!(pixels.len(), CANVAS_SIZE);
}

#[test]
fn paint_needs_points_and_payment() {
    let mut canvas = Patrapixel::new();
    let who = AccountId { bytes: [3; 32] };
    assert_eq!(canvas.update(who, DOTS, &vec![]), Err(PixelError::NoPoints));
    assert_eq!(canvas.update(who, 2 * DOTS - 1, &vec![(1, 1), (2, 2)]), Err(PixelError::InsufficientPayment));
    assert_eq!(canvas.metadata()[1], 0);
}

#[test]
fn ranks() {
    let win = vec![1, 2, 3];
    assert_eq!(rank(&vec![1, 2, 3], &win), Rank::FirstPrize);
    assert_eq!(rank(&vec![1, 2, 4], &win), Rank::SecondPrize);
    assert_eq!(rank(&vec![3, 2, 1], &win), Rank::ThirdPrize);
    assert_eq!(rank(&vec![2, 3, 1], &win), Rank::NoPrize);
    assert_eq!(rank(&vec![1, 2, 3], &vec![1]), Rank::ThirdPrize);
}

#[test]
fn winning_number_from_hash() {
    let mut random = [0u8; 32];
    random[0] = 0xab;
    random[1] = 0x05;
    random[2] = 0x97;
    random[3] = 0x1c;
    let (seed, win) = get_winning_number(&random);
    let mut expected = String::from("ab5971c");
    for _ in 4..32 {
        expected.push('0');
    }
    assert_eq!(seed, expected);
    assert_eq!(win, vec![5, 9, 7]);
}

#[test]
fn winning_number_with_few_digits() {
    let mut random = [0xaau8; 32];
    random[31] = 0x3b;
    let (seed, win) = get_winning_number(&random);
    assert_eq!(seed.len(), 64);
    assert_eq!(win, vec![3]);
}
