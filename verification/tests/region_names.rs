use linear_tools::converter::{extract_region_coords, Region, RegionConverter};
use linear_tools::error::ConvertError;
use linear_tools::parse::IntErrorKind;

#[test]
fn coordinates_come_from_the_second_part_of_the_name() {
    assert_eq!(extract_region_coords("world/region/r.1.2.linear"), Ok((1, 2)));
    assert_eq!(extract_region_coords("r.-3.5.linear"), Ok((-3, 5)));
    assert_eq!(extract_region_coords("r.+7.0.linear"), Ok((7, 0)));
    assert_eq!(extract_region_coords("some.dir/r.4.5.linear"), Ok((4, 5)));
}

#[test]
fn names_without_four_parts_are_refused() {
    assert_eq!(extract_region_coords("r.1.linear"), Err(ConvertError::FileName));
    assert_eq!(extract_region_coords("r.1.2.3.linear"), Err(ConvertError::FileName));
    assert_eq!(extract_region_coords("region/"), Err(ConvertError::FileName));
    assert_eq!(extract_region_coords(""), Err(ConvertError::FileName));
}

#[test]
fn coordinates_that_are_not_i32_are_refused() {
    assert_eq!(extract_region_coords("r.x.2.linear"), Err(ConvertError::Coordinate(IntErrorKind::InvalidDigit)));
    assert_eq!(
        extract_region_coords("r.2147483648.0.linear"),
        Err(ConvertError::Coordinate(IntErrorKind::PosOverflow))
    );
    assert_eq!(extract_region_coords("r..0.linear"), Err(ConvertError::Coordinate(IntErrorKind::Empty)));
    assert_eq!(extract_region_coords("r.1.b.linear"), Err(ConvertError::Coordinate(IntErrorKind::InvalidDigit)));
    assert_eq!(
        extract_region_coords("r.1.-2147483649.linear"),
        Err(ConvertError::Coordinate(IntErrorKind::NegOverflow))
    );
    assert_eq!(
        ConvertError::Coordinate(IntErrorKind::InvalidDigit).message(),
        "1x".parse::<i32>().unwrap_err().to_string()
    );
    assert_eq!(
        ConvertError::Coordinate(IntErrorKind::Empty).message(),
        "".parse::<i32>().unwrap_err().to_string()
    );
    assert_eq!(
        ConvertError::Coordinate(IntErrorKind::PosOverflow).message(),
        "9999999999".parse::<i32>().unwrap_err().to_string()
    );
    assert_eq!(
        ConvertError::Coordinate(IntErrorKind::NegOverflow).message(),
        "-9999999999".parse::<i32>().unwrap_err().to_string()
    );
}

#[test]
fn coordinates_follow_the_name_for_any_i32() {
    for (x, z) in [(0, 0), (1, -1), (i32::MIN, i32::MAX), (123, 45678), (-9, 9)] {
        let name = format!("r.{}.{}.linear", x, z);
        assert_eq!(extract_region_coords(&name), Ok((x, z)));
        assert_eq!(extract_region_coords(&format!("some/dir/{}", name)), Ok((x, z)));
    }
}

struct Names;

impl RegionConverter for Names {
    fn open_region_file(_path: &str) -> Result<Region, ConvertError> {
        Err(ConvertError::Io)
    }

    fn write_region_file(_region: Region, _output: &str, _compression: i8) -> Result<(), ConvertError> {
        Err(ConvertError::Io)
    }
}

#[test]
fn trait_default_reads_both_coordinates() {
    assert_eq!(Names::parse_region_coords("world/region/r.-3.7.linear"), Ok((-3, 7)));
    assert_eq!(Names::parse_region_coords("world/region/r.7.linear"), Err(ConvertError::RegionFileName));
    assert_eq!(
        ConvertError::RegionFileName.message(),
        "Region file is not named in the r.x.z.linear format"
    );
}
