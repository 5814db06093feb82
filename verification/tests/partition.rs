use parallel_factorial::partition::{
    choose_strategy, effective_parallelism, partition, Chunk, Strategy,
};
use parallel_factorial::theorems::SAFE_INPUT_LIMIT;
use parallel_factorial::{apply_factorial_to_range, reduce_products, single_threaded_factorial};

fn chunk(first: u64, last: u64) -> Chunk {
    Chunk { first, last }
}

#[test]
fn reported_parallelism_has_a_floor_of_one() {
    assert_eq!(effective_parallelism(0), 1);
    assert_eq!(effective_parallelism(1), 1);
    assert_eq!(effective_parallelism(8), 8);
    assert_eq!(effective_parallelism(usize::MAX), usize::MAX as u64);
}

#[test]
fn strategy_is_sequential_below_two_per_unit() {
    assert_eq!(choose_strategy(0, 1), Strategy::Sequential);
    assert_eq!(choose_strategy(1, 1), Strategy::Sequential);
    assert_eq!(choose_strategy(7, 4), Strategy::Sequential);
    assert_eq!(choose_strategy(79, 40), Strategy::Sequential);
    assert_eq!(choose_strategy(u64::MAX, u64::MAX), Strategy::Sequential);
}

#[test]
fn strategy_is_parallel_from_two_per_unit() {
    assert_eq!(choose_strategy(2, 1), Strategy::Parallel { chunk_size: 2 });
    assert_eq!(choose_strategy(8, 4), Strategy::Parallel { chunk_size: 2 });
    assert_eq!(choose_strategy(79, 4), Strategy::Parallel { chunk_size: 19 });
    assert_eq!(choose_strategy(79, 39), Strategy::Parallel { chunk_size: 2 });
    assert_eq!(choose_strategy(u64::MAX, 1), Strategy::Parallel { chunk_size: u64::MAX });
}

#[test]
fn partition_into_equal_chunks() {
    assert_eq!(partition(9, 3), vec![chunk(1, 3), chunk(4, 6), chunk(7, 9)]);
    assert_eq!(partition(4, 1), vec![chunk(1, 1), chunk(2, 2), chunk(3, 3), chunk(4, 4)]);
}

#[test]
fn last_chunk_takes_what_is_left_over() {
    assert_eq!(partition(10, 3), vec![chunk(1, 3), chunk(4, 6), chunk(7, 10)]);
    assert_eq!(partition(11, 3), vec![chunk(1, 3), chunk(4, 6), chunk(7, 11)]);
    assert_eq!(
        partition(79, 19),
        vec![chunk(1, 19), chunk(20, 38), chunk(39, 57), chunk(58, 79)]
    );
}

#[test]
fn partition_into_a_single_chunk() {
    assert_eq!(partition(5, 5), vec![chunk(1, 5)]);
    assert_eq!(partition(5, 3), vec![chunk(1, 5)]);
    assert_eq!(partition(1, 1), vec![chunk(1, 1)]);
    assert_eq!(partition(u64::MAX, u64::MAX), vec![chunk(1, u64::MAX)]);
    assert_eq!(partition(u64::MAX, u64::MAX / 2 + 1), vec![chunk(1, u64::MAX)]);
}

#[test]
fn partition_covers_the_range_without_gap_or_overlap() {
    for n in 1..=60u64 {
        for chunk_size in 1..=n {
            let chunks = partition(n, chunk_size);
            assert_eq!(chunks.len() as u64, n / chunk_size);
            assert_eq!(chunks[0].first, 1);
            assert_eq!(chunks[chunks.len() - 1].last, n);
            for (index, piece) in chunks.iter().enumerate() {
                assert!(piece.first <= piece.last);
                if index + 1 < chunks.len() {
                    assert_eq!(piece.last - piece.first + 1, chunk_size);
                    assert_eq!(chunks[index + 1].first, piece.last + 1);
                } else {
                    assert!(piece.last - piece.first + 1 >= chunk_size);
                    assert!(piece.last - piece.first + 1 < 2 * chunk_size);
                }
            }
        }
    }
}

#[test]
fn product_of_one_chunk() {
    assert_eq!(apply_factorial_to_range(chunk(1, 1)).to_decimal_string(), "1");
    assert_eq!(apply_factorial_to_range(chunk(1, 5)).to_decimal_string(), "120");
    assert_eq!(apply_factorial_to_range(chunk(4, 6)).to_decimal_string(), "120");
    assert_eq!(apply_factorial_to_range(chunk(7, 7)).to_decimal_string(), "7");
    assert_eq!(
        apply_factorial_to_range(chunk(u64::MAX - 1, u64::MAX)).to_decimal_string(),
        "340282366920938463408034375210639556610"
    );
}

#[test]
fn reduction_of_a_single_product_is_that_product() {
    let products = vec![apply_factorial_to_range(chunk(1, 6))];
    assert_eq!(reduce_products(products).to_decimal_string(), "720");
}

#[test]
fn reduction_multiplies_all_products() {
    let products = vec![
        apply_factorial_to_range(chunk(1, 3)),
        apply_factorial_to_range(chunk(4, 6)),
        apply_factorial_to_range(chunk(7, 10)),
    ];
    assert_eq!(reduce_products(products).to_decimal_string(), "3628800");
}

#[test]
fn any_chunk_size_and_any_order_give_the_same_value() {
    for n in 1..=40u64 {
        let expected = single_threaded_factorial(n);
        for chunk_size in 1..=n {
            let chunks = partition(n, chunk_size);
            let count = chunks.len();
            for shift in 0..count.min(3) {
                let mut products: Vec<_> =
                    chunks.iter().map(|piece| apply_factorial_to_range(*piece)).collect();
                products.rotate_left(shift);
                assert_eq!(reduce_products(products).to_decimal_string(), expected);
            }
            let mut products: Vec<_> =
                chunks.iter().map(|piece| apply_factorial_to_range(*piece)).collect();
            products.reverse();
            assert_eq!(reduce_products(products).to_decimal_string(), expected);
        }
    }
}

#[test]
fn uneven_partitions_of_the_same_range_give_the_same_value() {
    let expected = single_threaded_factorial(12);
    let cuts = [
        vec![chunk(1, 12)],
        vec![chunk(1, 1), chunk(2, 12)],
        vec![chunk(1, 5), chunk(6, 6), chunk(7, 12)],
        vec![chunk(7, 12), chunk(1, 5), chunk(6, 6)],
        vec![chunk(1, 2), chunk(3, 4), chunk(5, 6), chunk(7, 8), chunk(9, 10), chunk(11, 12)],
    ];
    for cut in cuts.iter() {
        let products: Vec<_> = cut.iter().map(|piece| apply_factorial_to_range(*piece)).collect();
        assert_eq!(reduce_products(products).to_decimal_string(), expected);
    }
}

#[test]
fn safe_input_limit_is_two_to_the_twenty_seven_less_one() {
    assert_eq!(SAFE_INPUT_LIMIT, (1u64 << 27) - 1);
}
