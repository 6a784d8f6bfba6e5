use jwtop::units::MemPrefix;

#[test]
fn prefix_letters() {
    assert_eq!(MemPrefix::Byte.prefix(), 'B');
    assert_eq!(MemPrefix::Kilo.prefix(), 'K');
    assert_eq!(MemPrefix::Mega.prefix(), 'M');
    assert_eq!(MemPrefix::Giga.prefix(), 'G');
    assert_eq!(MemPrefix::Tera.prefix(), 'T');
    assert_eq!(MemPrefix::Peta.prefix(), 'P');
}

#[test]
fn next_steps_up_and_saturates() {
    assert_eq!(MemPrefix::Byte.next(), MemPrefix::Kilo);
    assert_eq!(MemPrefix::Kilo.next(), MemPrefix::Mega);
    assert_eq!(MemPrefix::Mega.next(), MemPrefix::Giga);
    assert_eq!(MemPrefix::Giga.next(), MemPrefix::Tera);
    assert_eq!(MemPrefix::Tera.next(), MemPrefix::Peta);
    assert_eq!(MemPrefix::Peta.next(), MemPrefix::Peta);
}

#[test]
fn find_best_picks_smallest_fitting_prefix() {
    assert_eq!(MemPrefix::find_best(0), (0, MemPrefix::Byte));
    assert_eq!(MemPrefix::find_best(1023), (1023_000, MemPrefix::Byte));
    assert_eq!(MemPrefix::find_best(1024), (1000, MemPrefix::Kilo));
    assert_eq!(MemPrefix::find_best(1536), (1500, MemPrefix::Kilo));
    assert_eq!(MemPrefix::find_best(1024 * 1024), (1000, MemPrefix::Mega));
    // Two gibibytes read as 2.0 under the gibi prefix.
    assert_eq!(MemPrefix::find_best(2048 * 1024 * 1024), (2000, MemPrefix::Giga));
}

#[test]
fn convert_scales_through_the_fixed_prefix() {
    // 512 MiB under the gibi prefix is 0.5, held as 500 milli-units.
    assert_eq!(MemPrefix::Giga.convert(512 * 1024 * 1024), 500);
    assert_eq!(MemPrefix::Kilo.convert(1536), 1500);
    assert_eq!(MemPrefix::Byte.convert(7), 7000);
}

#[test]
fn best_string_rounds_to_one_decimal() {
    assert_eq!(MemPrefix::best_string(0), "0.0B");
    assert_eq!(MemPrefix::best_string(1536), "1.5K");
    assert_eq!(MemPrefix::best_string(2048 * 1024 * 1024), "2.0G");
    // 1.555K rounds up to 1.6K.
    assert_eq!(MemPrefix::best_string(1593), "1.6K");
}
