use sqlite::decimal::scaled_floor;
use sqlite::rounding::{last_place_of, round_to_single};
use sqlite::sql::{create_table_sql, drop_table_sql, insert_sql, update_sql};

const UNIT: u128 = 10_000_000_000_000_000_000_000_000;
const CAP: u128 = 21_474_836_480_000_000_000_000_000_000_000_000;

fn digits(text: &str) -> Vec<char> {
    text.chars().collect()
}

#[test]
fn statements_have_the_text_that_the_store_is_handed() {
    assert_eq!(
        create_table_sql("births"),
        "CREATE TABLE IF NOT EXISTS births (year INTEGER NOT NULL, month INTEGER NOT NULL, date_of_month INTEGER NOT NULL, day_of_week INTEGER NOT NULL, births INTEGER NOT NULL)"
    );
    assert_eq!(drop_table_sql("births"), "DROP TABLE IF EXISTS births");
    assert_eq!(
        insert_sql("births"),
        "INSERT INTO births (year, month, date_of_month, day_of_week, births) VALUES (?, ?, ?, ?, ?)"
    );
    assert_eq!(
        update_sql("test_table", "births = 600", "year = 2023 AND month = 10"),
        "UPDATE test_table SET births = 600 WHERE year = 2023 AND month = 10;"
    );
}

#[test]
fn fragments_enter_the_statements_as_they_are() {
    assert_eq!(drop_table_sql(""), "DROP TABLE IF EXISTS ");
    assert_eq!(drop_table_sql("a; DROP TABLE b"), "DROP TABLE IF EXISTS a; DROP TABLE b");
    assert_eq!(update_sql("\"t t\"", "", "x = 'é'"), "UPDATE \"t t\" SET  WHERE x = 'é';");
    assert_eq!(
        insert_sql("main.t"),
        "INSERT INTO main.t (year, month, date_of_month, day_of_week, births) VALUES (?, ?, ?, ?, ?)"
    );
}

#[test]
fn scaled_floor_moves_the_point() {
    assert_eq!(scaled_floor(&digits("12345"), 0), (12345, true));
    assert_eq!(scaled_floor(&digits("12345"), 3), (12345000, true));
    assert_eq!(scaled_floor(&digits("12345"), -2), (123, false));
    assert_eq!(scaled_floor(&digits("12300"), -2), (123, true));
    assert_eq!(scaled_floor(&digits("12345"), -5), (0, false));
    assert_eq!(scaled_floor(&digits("12345"), -500), (0, false));
    assert_eq!(scaled_floor(&digits("00000"), -500), (0, true));
    assert_eq!(scaled_floor(&digits("00000"), 500), (0, true));
    assert_eq!(scaled_floor(&digits(""), 7), (0, true));
    assert_eq!(scaled_floor(&digits(""), -7), (0, true));
    assert_eq!(scaled_floor(&digits("1"), 25), (UNIT, true));
    assert_eq!(scaled_floor(&digits("0001"), i128::MIN), (0, false));
    assert_eq!(scaled_floor(&digits("0000"), i128::MIN), (0, true));
}

#[test]
fn scaled_floor_stops_at_its_bound() {
    assert_eq!(scaled_floor(&digits("2147483647"), 25), (CAP - UNIT, true));
    assert_eq!(scaled_floor(&digits("2147483648"), 25), (CAP, true));
    assert_eq!(scaled_floor(&digits("2147483649"), 25), (CAP, true));
    assert_eq!(scaled_floor(&digits("1"), 35), (CAP, true));
    assert_eq!(scaled_floor(&digits("1"), i128::MAX), (CAP, true));
    assert_eq!(scaled_floor(&digits("99999999999999999999999999999999999999999999"), 0), (CAP, true));
    assert_eq!(scaled_floor(&digits("99999999999999999999999999999999999999999999"), -10), (9999999999999999999999999999999999, false));
    assert_eq!(scaled_floor(&digits("99999999999999999999999999999999999999999999"), -9), (CAP, false));
}

#[test]
fn characters_that_are_no_digits_count_as_zero() {
    assert_eq!(scaled_floor(&digits("1x3"), 0), (103, true));
    assert_eq!(scaled_floor(&digits("1x"), -1), (1, true));
}

#[test]
fn last_place_is_the_weight_of_the_last_kept_bit() {
    assert_eq!(last_place_of(0), 1);
    assert_eq!(last_place_of(1), 1);
    assert_eq!(last_place_of((1 << 24) - 1), 1);
    assert_eq!(last_place_of(1 << 24), 2);
    assert_eq!(last_place_of((1 << 25) - 1), 2);
    assert_eq!(last_place_of(1 << 25), 4);
    assert_eq!(last_place_of((1 << 56) - 1), 1 << 32);
    assert_eq!(last_place_of(u64::MAX), 1 << 40);
}

#[test]
fn rounding_keeps_whole_numbers_up_to_the_significand() {
    for whole in [0u128, 1, 2, 3, 500, 9083, 65535, 8388607, 8388608, 16777215, 16777216] {
        assert_eq!(round_to_single(whole * UNIT, true), whole as u32);
    }
}

#[test]
fn rounding_goes_to_the_nearest_and_to_even_half_way() {
    assert_eq!(round_to_single(16777217 * UNIT, true), 16777216);
    assert_eq!(round_to_single(16777217 * UNIT, false), 16777218);
    assert_eq!(round_to_single(16777217 * UNIT + 1, true), 16777218);
    assert_eq!(round_to_single(16777218 * UNIT, true), 16777218);
    assert_eq!(round_to_single(16777219 * UNIT, true), 16777220);
    assert_eq!(round_to_single(16777219 * UNIT - 1, true), 16777218);
    assert_eq!(round_to_single(8388608 * UNIT + UNIT / 2, true), 8388608);
    assert_eq!(round_to_single(8388609 * UNIT + UNIT / 2, true), 8388610);
    assert_eq!(round_to_single(8388608 * UNIT + UNIT / 2, false), 8388609);
    assert_eq!(round_to_single(UNIT / 2, true), 0);
    assert_eq!(round_to_single(UNIT - 1, true), 1);
    assert_eq!(round_to_single(UNIT - 298_023_223_876_953_125, true), 1);
    assert_eq!(round_to_single(UNIT - 298_023_223_876_953_126, true), 0);
    assert_eq!(round_to_single(UNIT - 298_023_223_876_953_126, false), 0);
    assert_eq!(round_to_single(0, false), 0);
}

#[test]
fn rounding_saturates_from_two_to_the_thirty_first() {
    assert_eq!(round_to_single(2147483520 * UNIT, true), 2147483520);
    assert_eq!(round_to_single(2147483584 * UNIT - 1, true), 2147483520);
    assert_eq!(round_to_single(2147483584 * UNIT, true), 2147483648);
    assert_eq!(round_to_single(CAP - 1, false), 2147483648);
    assert_eq!(round_to_single(CAP, true), 2147483648);
    assert_eq!(round_to_single(u128::MAX, false), 2147483648);
}
