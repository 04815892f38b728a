//! The countries that the game knows.

use vstd::prelude::*;

use crate::random;
use crate::sources::GeoImage;
use crate::text;

verus! {

/// A country with a point in it, usually the capital.
#[derive(Clone, Copy)]
pub struct Country {
    pub name: &'static str,
    pub region: &'static str,
    /// Latitude and longitude in hundredths of a degree.
    pub lat: i32,
    pub lon: i32,
    /// ISO 3166-1 alpha-2 code.
    pub iso: &'static str,
}

/// How many countries there are.
pub const COUNTRY_COUNT: usize = 72;

/// The countries in their fixed order.
pub open spec fn country_at(i: int) -> Country {
    if i == 0 {
        Country { name: "Germany", region: "Europe", lat: 5252, lon: 1340, iso: "DE" }
    } else if i == 1 {
        Country { name: "France", region: "Europe", lat: 4885, lon: 235, iso: "FR" }
    } else if i == 2 {
        Country { name: "United Kingdom", region: "Europe", lat: 5151, lon: (-13) as i32, iso: "GB" }
    } else if i == 3 {
        Country { name: "Italy", region: "Europe", lat: 4190, lon: 1249, iso: "IT" }
    } else if i == 4 {
        Country { name: "Spain", region: "Europe", lat: 4042, lon: (-370) as i32, iso: "ES" }
    } else if i == 5 {
        Country { name: "Netherlands", region: "Europe", lat: 5237, lon: 490, iso: "NL" }
    } else if i == 6 {
        Country { name: "Sweden", region: "Europe", lat: 5933, lon: 1807, iso: "SE" }
    } else if i == 7 {
        Country { name: "Norway", region: "Europe", lat: 5991, lon: 1075, iso: "NO" }
    } else if i == 8 {
        Country { name: "Denmark", region: "Europe", lat: 5568, lon: 1257, iso: "DK" }
    } else if i == 9 {
        Country { name: "Switzerland", region: "Europe", lat: 4695, lon: 745, iso: "CH" }
    } else if i == 10 {
        Country { name: "Austria", region: "Europe", lat: 4821, lon: 1637, iso: "AT" }
    } else if i == 11 {
        Country { name: "Belgium", region: "Europe", lat: 5085, lon: 435, iso: "BE" }
    } else if i == 12 {
        Country { name: "Portugal", region: "Europe", lat: 3872, lon: (-914) as i32, iso: "PT" }
    } else if i == 13 {
        Country { name: "Poland", region: "Europe", lat: 5223, lon: 2101, iso: "PL" }
    } else if i == 14 {
        Country { name: "Czech Republic", region: "Europe", lat: 5008, lon: 1447, iso: "CZ" }
    } else if i == 15 {
        Country { name: "Hungary", region: "Europe", lat: 4750, lon: 1904, iso: "HU" }
    } else if i == 16 {
        Country { name: "Romania", region: "Europe", lat: 4443, lon: 2610, iso: "RO" }
    } else if i == 17 {
        Country { name: "Greece", region: "Europe", lat: 3798, lon: 2373, iso: "GR" }
    } else if i == 18 {
        Country { name: "Finland", region: "Europe", lat: 6017, lon: 2493, iso: "FI" }
    } else if i == 19 {
        Country { name: "Iceland", region: "Europe", lat: 6414, lon: (-2194) as i32, iso: "IS" }
    } else if i == 20 {
        Country { name: "Ireland", region: "Europe", lat: 5334, lon: (-627) as i32, iso: "IE" }
    } else if i == 21 {
        Country { name: "Croatia", region: "Europe", lat: 4581, lon: 1598, iso: "HR" }
    } else if i == 22 {
        Country { name: "Bulgaria", region: "Europe", lat: 4270, lon: 2332, iso: "BG" }
    } else if i == 23 {
        Country { name: "Serbia", region: "Europe", lat: 4480, lon: 2046, iso: "RS" }
    } else if i == 24 {
        Country { name: "Slovakia", region: "Europe", lat: 4815, lon: 1711, iso: "SK" }
    } else if i == 25 {
        Country { name: "United States", region: "Americas", lat: 3891, lon: (-7704) as i32, iso: "US" }
    } else if i == 26 {
        Country { name: "Canada", region: "Americas", lat: 4542, lon: (-7570) as i32, iso: "CA" }
    } else if i == 27 {
        Country { name: "Brazil", region: "Americas", lat: (-1578) as i32, lon: (-4793) as i32, iso: "BR" }
    } else if i == 28 {
        Country { name: "Argentina", region: "Americas", lat: (-3461) as i32, lon: (-5838) as i32, iso: "AR" }
    } else if i == 29 {
        Country { name: "Mexico", region: "Americas", lat: 1943, lon: (-9913) as i32, iso: "MX" }
    } else if i == 30 {
        Country { name: "Colombia", region: "Americas", lat: 471, lon: (-7407) as i32, iso: "CO" }
    } else if i == 31 {
        Country { name: "Chile", region: "Americas", lat: (-3346) as i32, lon: (-7065) as i32, iso: "CL" }
    } else if i == 32 {
        Country { name: "Peru", region: "Americas", lat: (-1205) as i32, lon: (-7705) as i32, iso: "PE" }
    } else if i == 33 {
        Country { name: "Cuba", region: "Americas", lat: 2313, lon: (-8238) as i32, iso: "CU" }
    } else if i == 34 {
        Country { name: "Japan", region: "Asia", lat: 3569, lon: 13969, iso: "JP" }
    } else if i == 35 {
        Country { name: "China", region: "Asia", lat: 3991, lon: 11639, iso: "CN" }
    } else if i == 36 {
        Country { name: "India", region: "Asia", lat: 2861, lon: 7721, iso: "IN" }
    } else if i == 37 {
        Country { name: "South Korea", region: "Asia", lat: 3757, lon: 12698, iso: "KR" }
    } else if i == 38 {
        Country { name: "Thailand", region: "Asia", lat: 1375, lon: 10052, iso: "TH" }
    } else if i == 39 {
        Country { name: "Vietnam", region: "Asia", lat: 2103, lon: 10583, iso: "VN" }
    } else if i == 40 {
        Country { name: "Indonesia", region: "Asia", lat: (-621) as i32, lon: 10685, iso: "ID" }
    } else if i == 41 {
        Country { name: "Malaysia", region: "Asia", lat: 314, lon: 10169, iso: "MY" }
    } else if i == 42 {
        Country { name: "Singapore", region: "Asia", lat: 136, lon: 10382, iso: "SG" }
    } else if i == 43 {
        Country { name: "Philippines", region: "Asia", lat: 1460, lon: 12098, iso: "PH" }
    } else if i == 44 {
        Country { name: "Nepal", region: "Asia", lat: 2770, lon: 8531, iso: "NP" }
    } else if i == 45 {
        Country { name: "Sri Lanka", region: "Asia", lat: 693, lon: 7985, iso: "LK" }
    } else if i == 46 {
        Country { name: "Taiwan", region: "Asia", lat: 2505, lon: 12152, iso: "TW" }
    } else if i == 47 {
        Country { name: "Turkey", region: "Asia", lat: 3993, lon: 3286, iso: "TR" }
    } else if i == 48 {
        Country { name: "Pakistan", region: "Asia", lat: 3372, lon: 7306, iso: "PK" }
    } else if i == 49 {
        Country { name: "Bangladesh", region: "Asia", lat: 2373, lon: 9039, iso: "BD" }
    } else if i == 50 {
        Country { name: "Kazakhstan", region: "Asia", lat: 5116, lon: 7145, iso: "KZ" }
    } else if i == 51 {
        Country { name: "Georgia", region: "Asia", lat: 4169, lon: 4483, iso: "GE" }
    } else if i == 52 {
        Country { name: "Armenia", region: "Asia", lat: 4018, lon: 4451, iso: "AM" }
    } else if i == 53 {
        Country { name: "Israel", region: "Middle East", lat: 3177, lon: 3522, iso: "IL" }
    } else if i == 54 {
        Country { name: "Jordan", region: "Middle East", lat: 3195, lon: 3593, iso: "JO" }
    } else if i == 55 {
        Country { name: "United Arab Emirates", region: "Middle East", lat: 2445, lon: 5438, iso: "AE" }
    } else if i == 56 {
        Country { name: "Saudi Arabia", region: "Middle East", lat: 2469, lon: 4672, iso: "SA" }
    } else if i == 57 {
        Country { name: "Iran", region: "Middle East", lat: 3569, lon: 5142, iso: "IR" }
    } else if i == 58 {
        Country { name: "South Africa", region: "Africa", lat: (-2575) as i32, lon: 2819, iso: "ZA" }
    } else if i == 59 {
        Country { name: "Egypt", region: "Africa", lat: 3006, lon: 3125, iso: "EG" }
    } else if i == 60 {
        Country { name: "Kenya", region: "Africa", lat: (-129) as i32, lon: 3682, iso: "KE" }
    } else if i == 61 {
        Country { name: "Morocco", region: "Africa", lat: 3401, lon: (-685) as i32, iso: "MA" }
    } else if i == 62 {
        Country { name: "Tanzania", region: "Africa", lat: (-617) as i32, lon: 3574, iso: "TZ" }
    } else if i == 63 {
        Country { name: "Ethiopia", region: "Africa", lat: 903, lon: 3874, iso: "ET" }
    } else if i == 64 {
        Country { name: "Ghana", region: "Africa", lat: 556, lon: (-20) as i32, iso: "GH" }
    } else if i == 65 {
        Country { name: "Nigeria", region: "Africa", lat: 907, lon: 740, iso: "NG" }
    } else if i == 66 {
        Country { name: "Tunisia", region: "Africa", lat: 3682, lon: 1016, iso: "TN" }
    } else if i == 67 {
        Country { name: "Senegal", region: "Africa", lat: 1474, lon: (-1747) as i32, iso: "SN" }
    } else if i == 68 {
        Country { name: "Uganda", region: "Africa", lat: 32, lon: 3258, iso: "UG" }
    } else if i == 69 {
        Country { name: "Australia", region: "Oceania", lat: (-3528) as i32, lon: 14913, iso: "AU" }
    } else if i == 70 {
        Country { name: "New Zealand", region: "Oceania", lat: (-4129) as i32, lon: 17478, iso: "NZ" }
    } else {
        Country { name: "Fiji", region: "Oceania", lat: (-1814) as i32, lon: 17844, iso: "FJ" }
    }
}

/// The country at a position.
pub fn country(i: usize) -> (r: Country)
    requires
        i < COUNTRY_COUNT,
    ensures
        r == country_at(i as int),
{
    if i == 0 {
        Country { name: "Germany", region: "Europe", lat: 5252, lon: 1340, iso: "DE" }
    } else if i == 1 {
        Country { name: "France", region: "Europe", lat: 4885, lon: 235, iso: "FR" }
    } else if i == 2 {
        Country { name: "United Kingdom", region: "Europe", lat: 5151, lon: -13, iso: "GB" }
    } else if i == 3 {
        Country { name: "Italy", region: "Europe", lat: 4190, lon: 1249, iso: "IT" }
    } else if i == 4 {
        Country { name: "Spain", region: "Europe", lat: 4042, lon: -370, iso: "ES" }
    } else if i == 5 {
        Country { name: "Netherlands", region: "Europe", lat: 5237, lon: 490, iso: "NL" }
    } else if i == 6 {
        Country { name: "Sweden", region: "Europe", lat: 5933, lon: 1807, iso: "SE" }
    } else if i == 7 {
        Country { name: "Norway", region: "Europe", lat: 5991, lon: 1075, iso: "NO" }
    } else if i == 8 {
        Country { name: "Denmark", region: "Europe", lat: 5568, lon: 1257, iso: "DK" }
    } else if i == 9 {
        Country { name: "Switzerland", region: "Europe", lat: 4695, lon: 745, iso: "CH" }
    } else if i == 10 {
        Country { name: "Austria", region: "Europe", lat: 4821, lon: 1637, iso: "AT" }
    } else if i == 11 {
        Country { name: "Belgium", region: "Europe", lat: 5085, lon: 435, iso: "BE" }
    } else if i == 12 {
        Country { name: "Portugal", region: "Europe", lat: 3872, lon: -914, iso: "PT" }
    } else if i == 13 {
        Country { name: "Poland", region: "Europe", lat: 5223, lon: 2101, iso: "PL" }
    } else if i == 14 {
        Country { name: "Czech Republic", region: "Europe", lat: 5008, lon: 1447, iso: "CZ" }
    } else if i == 15 {
        Country { name: "Hungary", region: "Europe", lat: 4750, lon: 1904, iso: "HU" }
    } else if i == 16 {
        Country { name: "Romania", region: "Europe", lat: 4443, lon: 2610, iso: "RO" }
    } else if i == 17 {
        Country { name: "Greece", region: "Europe", lat: 3798, lon: 2373, iso: "GR" }
    } else if i == 18 {
        Country { name: "Finland", region: "Europe", lat: 6017, lon: 2493, iso: "FI" }
    } else if i == 19 {
        Country { name: "Iceland", region: "Europe", lat: 6414, lon: -2194, iso: "IS" }
    } else if i == 20 {
        Country { name: "Ireland", region: "Europe", lat: 5334, lon: -627, iso: "IE" }
    } else if i == 21 {
        Country { name: "Croatia", region: "Europe", lat: 4581, lon: 1598, iso: "HR" }
    } else if i == 22 {
        Country { name: "Bulgaria", region: "Europe", lat: 4270, lon: 2332, iso: "BG" }
    } else if i == 23 {
        Country { name: "Serbia", region: "Europe", lat: 4480, lon: 2046, iso: "RS" }
    } else if i == 24 {
        Country { name: "Slovakia", region: "Europe", lat: 4815, lon: 1711, iso: "SK" }
    } else if i == 25 {
        Country { name: "United States", region: "Americas", lat: 3891, lon: -7704, iso: "US" }
    } else if i == 26 {
        Country { name: "Canada", region: "Americas", lat: 4542, lon: -7570, iso: "CA" }
    } else if i == 27 {
        Country { name: "Brazil", region: "Americas", lat: -1578, lon: -4793, iso: "BR" }
    } else if i == 28 {
        Country { name: "Argentina", region: "Americas", lat: -3461, lon: -5838, iso: "AR" }
    } else if i == 29 {
        Country { name: "Mexico", region: "Americas", lat: 1943, lon: -9913, iso: "MX" }
    } else if i == 30 {
        Country { name: "Colombia", region: "Americas", lat: 471, lon: -7407, iso: "CO" }
    } else if i == 31 {
        Country { name: "Chile", region: "Americas", lat: -3346, lon: -7065, iso: "CL" }
    } else if i == 32 {
        Country { name: "Peru", region: "Americas", lat: -1205, lon: -7705, iso: "PE" }
    } else if i == 33 {
        Country { name: "Cuba", region: "Americas", lat: 2313, lon: -8238, iso: "CU" }
    } else if i == 34 {
        Country { name: "Japan", region: "Asia", lat: 3569, lon: 13969, iso: "JP" }
    } else if i == 35 {
        Country { name: "China", region: "Asia", lat: 3991, lon: 11639, iso: "CN" }
    } else if i == 36 {
        Country { name: "India", region: "Asia", lat: 2861, lon: 7721, iso: "IN" }
    } else if i == 37 {
        Country { name: "South Korea", region: "Asia", lat: 3757, lon: 12698, iso: "KR" }
    } else if i == 38 {
        Country { name: "Thailand", region: "Asia", lat: 1375, lon: 10052, iso: "TH" }
    } else if i == 39 {
        Country { name: "Vietnam", region: "Asia", lat: 2103, lon: 10583, iso: "VN" }
    } else if i == 40 {
        Country { name: "Indonesia", region: "Asia", lat: -621, lon: 10685, iso: "ID" }
    } else if i == 41 {
        Country { name: "Malaysia", region: "Asia", lat: 314, lon: 10169, iso: "MY" }
    } else if i == 42 {
        Country { name: "Singapore", region: "Asia", lat: 136, lon: 10382, iso: "SG" }
    } else if i == 43 {
        Country { name: "Philippines", region: "Asia", lat: 1460, lon: 12098, iso: "PH" }
    } else if i == 44 {
        Country { name: "Nepal", region: "Asia", lat: 2770, lon: 8531, iso: "NP" }
    } else if i == 45 {
        Country { name: "Sri Lanka", region: "Asia", lat: 693, lon: 7985, iso: "LK" }
    } else if i == 46 {
        Country { name: "Taiwan", region: "Asia", lat: 2505, lon: 12152, iso: "TW" }
    } else if i == 47 {
        Country { name: "Turkey", region: "Asia", lat: 3993, lon: 3286, iso: "TR" }
    } else if i == 48 {
        Country { name: "Pakistan", region: "Asia", lat: 3372, lon: 7306, iso: "PK" }
    } else if i == 49 {
        Country { name: "Bangladesh", region: "Asia", lat: 2373, lon: 9039, iso: "BD" }
    } else if i == 50 {
        Country { name: "Kazakhstan", region: "Asia", lat: 5116, lon: 7145, iso: "KZ" }
    } else if i == 51 {
        Country { name: "Georgia", region: "Asia", lat: 4169, lon: 4483, iso: "GE" }
    } else if i == 52 {
        Country { name: "Armenia", region: "Asia", lat: 4018, lon: 4451, iso: "AM" }
    } else if i == 53 {
        Country { name: "Israel", region: "Middle East", lat: 3177, lon: 3522, iso: "IL" }
    } else if i == 54 {
        Country { name: "Jordan", region: "Middle East", lat: 3195, lon: 3593, iso: "JO" }
    } else if i == 55 {
        Country { name: "United Arab Emirates", region: "Middle East", lat: 2445, lon: 5438, iso: "AE" }
    } else if i == 56 {
        Country { name: "Saudi Arabia", region: "Middle East", lat: 2469, lon: 4672, iso: "SA" }
    } else if i == 57 {
        Country { name: "Iran", region: "Middle East", lat: 3569, lon: 5142, iso: "IR" }
    } else if i == 58 {
        Country { name: "South Africa", region: "Africa", lat: -2575, lon: 2819, iso: "ZA" }
    } else if i == 59 {
        Country { name: "Egypt", region: "Africa", lat: 3006, lon: 3125, iso: "EG" }
    } else if i == 60 {
        Country { name: "Kenya", region: "Africa", lat: -129, lon: 3682, iso: "KE" }
    } else if i == 61 {
        Country { name: "Morocco", region: "Africa", lat: 3401, lon: -685, iso: "MA" }
    } else if i == 62 {
        Country { name: "Tanzania", region: "Africa", lat: -617, lon: 3574, iso: "TZ" }
    } else if i == 63 {
        Country { name: "Ethiopia", region: "Africa", lat: 903, lon: 3874, iso: "ET" }
    } else if i == 64 {
        Country { name: "Ghana", region: "Africa", lat: 556, lon: -20, iso: "GH" }
    } else if i == 65 {
        Country { name: "Nigeria", region: "Africa", lat: 907, lon: 740, iso: "NG" }
    } else if i == 66 {
        Country { name: "Tunisia", region: "Africa", lat: 3682, lon: 1016, iso: "TN" }
    } else if i == 67 {
        Country { name: "Senegal", region: "Africa", lat: 1474, lon: -1747, iso: "SN" }
    } else if i == 68 {
        Country { name: "Uganda", region: "Africa", lat: 32, lon: 3258, iso: "UG" }
    } else if i == 69 {
        Country { name: "Australia", region: "Oceania", lat: -3528, lon: 14913, iso: "AU" }
    } else if i == 70 {
        Country { name: "New Zealand", region: "Oceania", lat: -4129, lon: 17478, iso: "NZ" }
    } else {
        Country { name: "Fiji", region: "Oceania", lat: -1814, lon: 17844, iso: "FJ" }
    }
}

// ── Names ────────────────────────────────────────────────────────────────────

/// A number made of the length and three letters of a name.
spec fn name_key(s: Seq<char>) -> int {
    ((s.len() * 128 + s[0] as int) * 128 + s[1] as int) * 128 + s[3] as int
}

/// The country whose name has this key.
spec fn place_of_key(key: int) -> int {
    if key == 15856365 {
        0
    } else if key == 13744494 {
        1
    } else if key == 30766964 {
        2
    } else if key == 11696748 {
        3
    } else if key == 11860073 {
        4
    } else if key == 24359656 {
        5
    } else if key == 13958116 {
        6
    } else if key == 13875191 {
        7
    } else if key == 15807213 {
        8
    } else if key == 24443892 {
        9
    } else if key == 15760116 {
        10
    } else if key == 15774439 {
        11
    } else if key == 18102260 {
        12
    } else if key == 13907937 {
        13
    } else if key == 30473571 {
        14
    } else if key == 15874791 {
        15
    } else if key == 16037857 {
        16
    } else if key == 13760869 {
        17
    } else if key == 15840492 {
        18
    } else if key == 15888876 {
        19
    } else if key == 15890796 {
        20
    } else if key == 15792481 {
        21
    } else if key == 17873639 {
        22
    } else if key == 13955810 {
        23
    } else if key == 18151030 {
        24
    } else if key == 28669812 {
        25
    } else if key == 13693153 {
        26
    } else if key == 13678970 {
        27
    } else if key == 19954021 {
        28
    } else if key == 13857513 {
        29
    } else if key == 17889263 {
        30
    } else if key == 11596908 {
        31
    } else if key == 9712373 {
        32
    } else if key == 9501409 {
        33
    } else if key == 11710689 {
        34
    } else if key == 11596910 {
        35
    } else if key == 11695977 {
        36
    } else if key == 24442868 {
        37
    } else if key == 18166889 {
        38
    } else if key == 16102644 {
        39
    } else if key == 20084591 {
        40
    } else if key == 18051297 {
        41
    } else if key == 20247783 {
        42
    } else if key == 24392812 {
        43
    } else if key == 11776737 {
        44
    } else if key == 20248864 {
        45
    } else if key == 13971703 {
        46
    } else if key == 13974251 {
        47
    } else if key == 18100457 {
        48
    } else if key == 22065383 {
        49
    } else if key == 22212833 {
        50
    } else if key == 15856370 {
        51
    } else if key == 15759717 {
        52
    } else if key == 13793761 {
        53
    } else if key == 13809636 {
        54
    } else if key == 43349876 {
        55
    } else if key == 26538212 {
        56
    } else if key == 9599342 {
        57
    } else if key == 26540020 {
        58
    } else if key == 11629552 {
        59
    } else if key == 11727609 {
        60
    } else if key == 15955951 {
        61
    } else if key == 18166010 {
        62
    } else if key == 17922665 {
        63
    } else if key == 11662446 {
        64
    } else if key == 15971557 {
        65
    } else if key == 16071401 {
        66
    } else if key == 16052965 {
        67
    } else if key == 13988846 {
        68
    } else if key == 19954420 {
        69
    } else if key == 24359584 {
        70
    } else if key == 9549033 {
        71
    } else {
        -1
    }
}

#[verifier::spinoff_prover]
proof fn lemma_name_place(i: int)
    requires
        0 <= i < COUNTRY_COUNT,
    ensures
        place_of_key(name_key(country_at(i).name@)) == i,
{
    reveal_strlit("Germany");
    reveal_strlit("France");
    reveal_strlit("United Kingdom");
    reveal_strlit("Italy");
    reveal_strlit("Spain");
    reveal_strlit("Netherlands");
    reveal_strlit("Sweden");
    reveal_strlit("Norway");
    reveal_strlit("Denmark");
    reveal_strlit("Switzerland");
    reveal_strlit("Austria");
    reveal_strlit("Belgium");
    reveal_strlit("Portugal");
    reveal_strlit("Poland");
    reveal_strlit("Czech Republic");
    reveal_strlit("Hungary");
    reveal_strlit("Romania");
    reveal_strlit("Greece");
    reveal_strlit("Finland");
    reveal_strlit("Iceland");
    reveal_strlit("Ireland");
    reveal_strlit("Croatia");
    reveal_strlit("Bulgaria");
    reveal_strlit("Serbia");
    reveal_strlit("Slovakia");
    reveal_strlit("United States");
    reveal_strlit("Canada");
    reveal_strlit("Brazil");
    reveal_strlit("Argentina");
    reveal_strlit("Mexico");
    reveal_strlit("Colombia");
    reveal_strlit("Chile");
    reveal_strlit("Peru");
    reveal_strlit("Cuba");
    reveal_strlit("Japan");
    reveal_strlit("China");
    reveal_strlit("India");
    reveal_strlit("South Korea");
    reveal_strlit("Thailand");
    reveal_strlit("Vietnam");
    reveal_strlit("Indonesia");
    reveal_strlit("Malaysia");
    reveal_strlit("Singapore");
    reveal_strlit("Philippines");
    reveal_strlit("Nepal");
    reveal_strlit("Sri Lanka");
    reveal_strlit("Taiwan");
    reveal_strlit("Turkey");
    reveal_strlit("Pakistan");
    reveal_strlit("Bangladesh");
    reveal_strlit("Kazakhstan");
    reveal_strlit("Georgia");
    reveal_strlit("Armenia");
    reveal_strlit("Israel");
    reveal_strlit("Jordan");
    reveal_strlit("United Arab Emirates");
    reveal_strlit("Saudi Arabia");
    reveal_strlit("Iran");
    reveal_strlit("South Africa");
    reveal_strlit("Egypt");
    reveal_strlit("Kenya");
    reveal_strlit("Morocco");
    reveal_strlit("Tanzania");
    reveal_strlit("Ethiopia");
    reveal_strlit("Ghana");
    reveal_strlit("Nigeria");
    reveal_strlit("Tunisia");
    reveal_strlit("Senegal");
    reveal_strlit("Uganda");
    reveal_strlit("Australia");
    reveal_strlit("New Zealand");
    reveal_strlit("Fiji");
}

/// The numbers that stand for the names of the countries.
proof fn lemma_written_names()
    ensures
        place_of_key(name_key("Germany"@)) == 0,
        place_of_key(name_key("France"@)) == 1,
        place_of_key(name_key("United Kingdom"@)) == 2,
        place_of_key(name_key("Italy"@)) == 3,
        place_of_key(name_key("Spain"@)) == 4,
        place_of_key(name_key("Netherlands"@)) == 5,
        place_of_key(name_key("Sweden"@)) == 6,
        place_of_key(name_key("Norway"@)) == 7,
        place_of_key(name_key("Denmark"@)) == 8,
        place_of_key(name_key("Switzerland"@)) == 9,
        place_of_key(name_key("Austria"@)) == 10,
        place_of_key(name_key("Belgium"@)) == 11,
        place_of_key(name_key("Portugal"@)) == 12,
        place_of_key(name_key("Poland"@)) == 13,
        place_of_key(name_key("Czech Republic"@)) == 14,
        place_of_key(name_key("Hungary"@)) == 15,
        place_of_key(name_key("Romania"@)) == 16,
        place_of_key(name_key("Greece"@)) == 17,
        place_of_key(name_key("Finland"@)) == 18,
        place_of_key(name_key("Iceland"@)) == 19,
        place_of_key(name_key("Ireland"@)) == 20,
        place_of_key(name_key("Croatia"@)) == 21,
        place_of_key(name_key("Bulgaria"@)) == 22,
        place_of_key(name_key("Serbia"@)) == 23,
        place_of_key(name_key("Slovakia"@)) == 24,
        place_of_key(name_key("United States"@)) == 25,
        place_of_key(name_key("Canada"@)) == 26,
        place_of_key(name_key("Brazil"@)) == 27,
        place_of_key(name_key("Argentina"@)) == 28,
        place_of_key(name_key("Mexico"@)) == 29,
        place_of_key(name_key("Colombia"@)) == 30,
        place_of_key(name_key("Chile"@)) == 31,
        place_of_key(name_key("Peru"@)) == 32,
        place_of_key(name_key("Cuba"@)) == 33,
        place_of_key(name_key("Japan"@)) == 34,
        place_of_key(name_key("China"@)) == 35,
        place_of_key(name_key("India"@)) == 36,
        place_of_key(name_key("South Korea"@)) == 37,
        place_of_key(name_key("Thailand"@)) == 38,
        place_of_key(name_key("Vietnam"@)) == 39,
        place_of_key(name_key("Indonesia"@)) == 40,
        place_of_key(name_key("Malaysia"@)) == 41,
        place_of_key(name_key("Singapore"@)) == 42,
        place_of_key(name_key("Philippines"@)) == 43,
        place_of_key(name_key("Nepal"@)) == 44,
        place_of_key(name_key("Sri Lanka"@)) == 45,
        place_of_key(name_key("Taiwan"@)) == 46,
        place_of_key(name_key("Turkey"@)) == 47,
        place_of_key(name_key("Pakistan"@)) == 48,
        place_of_key(name_key("Bangladesh"@)) == 49,
        place_of_key(name_key("Kazakhstan"@)) == 50,
        place_of_key(name_key("Georgia"@)) == 51,
        place_of_key(name_key("Armenia"@)) == 52,
        place_of_key(name_key("Israel"@)) == 53,
        place_of_key(name_key("Jordan"@)) == 54,
        place_of_key(name_key("United Arab Emirates"@)) == 55,
        place_of_key(name_key("Saudi Arabia"@)) == 56,
        place_of_key(name_key("Iran"@)) == 57,
        place_of_key(name_key("South Africa"@)) == 58,
        place_of_key(name_key("Egypt"@)) == 59,
        place_of_key(name_key("Kenya"@)) == 60,
        place_of_key(name_key("Morocco"@)) == 61,
        place_of_key(name_key("Tanzania"@)) == 62,
        place_of_key(name_key("Ethiopia"@)) == 63,
        place_of_key(name_key("Ghana"@)) == 64,
        place_of_key(name_key("Nigeria"@)) == 65,
        place_of_key(name_key("Tunisia"@)) == 66,
        place_of_key(name_key("Senegal"@)) == 67,
        place_of_key(name_key("Uganda"@)) == 68,
        place_of_key(name_key("Australia"@)) == 69,
        place_of_key(name_key("New Zealand"@)) == 70,
        place_of_key(name_key("Fiji"@)) == 71,
{
    reveal_strlit("Germany");
    reveal_strlit("France");
    reveal_strlit("United Kingdom");
    reveal_strlit("Italy");
    reveal_strlit("Spain");
    reveal_strlit("Netherlands");
    reveal_strlit("Sweden");
    reveal_strlit("Norway");
    reveal_strlit("Denmark");
    reveal_strlit("Switzerland");
    reveal_strlit("Austria");
    reveal_strlit("Belgium");
    reveal_strlit("Portugal");
    reveal_strlit("Poland");
    reveal_strlit("Czech Republic");
    reveal_strlit("Hungary");
    reveal_strlit("Romania");
    reveal_strlit("Greece");
    reveal_strlit("Finland");
    reveal_strlit("Iceland");
    reveal_strlit("Ireland");
    reveal_strlit("Croatia");
    reveal_strlit("Bulgaria");
    reveal_strlit("Serbia");
    reveal_strlit("Slovakia");
    reveal_strlit("United States");
    reveal_strlit("Canada");
    reveal_strlit("Brazil");
    reveal_strlit("Argentina");
    reveal_strlit("Mexico");
    reveal_strlit("Colombia");
    reveal_strlit("Chile");
    reveal_strlit("Peru");
    reveal_strlit("Cuba");
    reveal_strlit("Japan");
    reveal_strlit("China");
    reveal_strlit("India");
    reveal_strlit("South Korea");
    reveal_strlit("Thailand");
    reveal_strlit("Vietnam");
    reveal_strlit("Indonesia");
    reveal_strlit("Malaysia");
    reveal_strlit("Singapore");
    reveal_strlit("Philippines");
    reveal_strlit("Nepal");
    reveal_strlit("Sri Lanka");
    reveal_strlit("Taiwan");
    reveal_strlit("Turkey");
    reveal_strlit("Pakistan");
    reveal_strlit("Bangladesh");
    reveal_strlit("Kazakhstan");
    reveal_strlit("Georgia");
    reveal_strlit("Armenia");
    reveal_strlit("Israel");
    reveal_strlit("Jordan");
    reveal_strlit("United Arab Emirates");
    reveal_strlit("Saudi Arabia");
    reveal_strlit("Iran");
    reveal_strlit("South Africa");
    reveal_strlit("Egypt");
    reveal_strlit("Kenya");
    reveal_strlit("Morocco");
    reveal_strlit("Tanzania");
    reveal_strlit("Ethiopia");
    reveal_strlit("Ghana");
    reveal_strlit("Nigeria");
    reveal_strlit("Tunisia");
    reveal_strlit("Senegal");
    reveal_strlit("Uganda");
    reveal_strlit("Australia");
    reveal_strlit("New Zealand");
    reveal_strlit("Fiji");
}

/// Each country has its region, its point and its code, whatever its place in the list.
pub proof fn law_countries_by_name(i: int)
    requires
        0 <= i < COUNTRY_COUNT,
    ensures
        country_at(i).name@ == "Germany"@ ==> country_at(i).region@ == "Europe"@ && country_at(i).lat == 5252
            && country_at(i).lon == 1340 && country_at(i).iso@ == "DE"@,
        country_at(i).name@ == "France"@ ==> country_at(i).region@ == "Europe"@ && country_at(i).lat == 4885
            && country_at(i).lon == 235 && country_at(i).iso@ == "FR"@,
        country_at(i).name@ == "United Kingdom"@ ==> country_at(i).region@ == "Europe"@ && country_at(i).lat == 5151
            && country_at(i).lon == -13 && country_at(i).iso@ == "GB"@,
        country_at(i).name@ == "Italy"@ ==> country_at(i).region@ == "Europe"@ && country_at(i).lat == 4190
            && country_at(i).lon == 1249 && country_at(i).iso@ == "IT"@,
        country_at(i).name@ == "Spain"@ ==> country_at(i).region@ == "Europe"@ && country_at(i).lat == 4042
            && country_at(i).lon == -370 && country_at(i).iso@ == "ES"@,
        country_at(i).name@ == "Netherlands"@ ==> country_at(i).region@ == "Europe"@ && country_at(i).lat == 5237
            && country_at(i).lon == 490 && country_at(i).iso@ == "NL"@,
        country_at(i).name@ == "Sweden"@ ==> country_at(i).region@ == "Europe"@ && country_at(i).lat == 5933
            && country_at(i).lon == 1807 && country_at(i).iso@ == "SE"@,
        country_at(i).name@ == "Norway"@ ==> country_at(i).region@ == "Europe"@ && country_at(i).lat == 5991
            && country_at(i).lon == 1075 && country_at(i).iso@ == "NO"@,
        country_at(i).name@ == "Denmark"@ ==> country_at(i).region@ == "Europe"@ && country_at(i).lat == 5568
            && country_at(i).lon == 1257 && country_at(i).iso@ == "DK"@,
        country_at(i).name@ == "Switzerland"@ ==> country_at(i).region@ == "Europe"@ && country_at(i).lat == 4695
            && country_at(i).lon == 745 && country_at(i).iso@ == "CH"@,
        country_at(i).name@ == "Austria"@ ==> country_at(i).region@ == "Europe"@ && country_at(i).lat == 4821
            && country_at(i).lon == 1637 && country_at(i).iso@ == "AT"@,
        country_at(i).name@ == "Belgium"@ ==> country_at(i).region@ == "Europe"@ && country_at(i).lat == 5085
            && country_at(i).lon == 435 && country_at(i).iso@ == "BE"@,
        country_at(i).name@ == "Portugal"@ ==> country_at(i).region@ == "Europe"@ && country_at(i).lat == 3872
            && country_at(i).lon == -914 && country_at(i).iso@ == "PT"@,
        country_at(i).name@ == "Poland"@ ==> country_at(i).region@ == "Europe"@ && country_at(i).lat == 5223
            && country_at(i).lon == 2101 && country_at(i).iso@ == "PL"@,
        country_at(i).name@ == "Czech Republic"@ ==> country_at(i).region@ == "Europe"@ && country_at(i).lat == 5008
            && country_at(i).lon == 1447 && country_at(i).iso@ == "CZ"@,
        country_at(i).name@ == "Hungary"@ ==> country_at(i).region@ == "Europe"@ && country_at(i).lat == 4750
            && country_at(i).lon == 1904 && country_at(i).iso@ == "HU"@,
        country_at(i).name@ == "Romania"@ ==> country_at(i).region@ == "Europe"@ && country_at(i).lat == 4443
            && country_at(i).lon == 2610 && country_at(i).iso@ == "RO"@,
        country_at(i).name@ == "Greece"@ ==> country_at(i).region@ == "Europe"@ && country_at(i).lat == 3798
            && country_at(i).lon == 2373 && country_at(i).iso@ == "GR"@,
        country_at(i).name@ == "Finland"@ ==> country_at(i).region@ == "Europe"@ && country_at(i).lat == 6017
            && country_at(i).lon == 2493 && country_at(i).iso@ == "FI"@,
        country_at(i).name@ == "Iceland"@ ==> country_at(i).region@ == "Europe"@ && country_at(i).lat == 6414
            && country_at(i).lon == -2194 && country_at(i).iso@ == "IS"@,
        country_at(i).name@ == "Ireland"@ ==> country_at(i).region@ == "Europe"@ && country_at(i).lat == 5334
            && country_at(i).lon == -627 && country_at(i).iso@ == "IE"@,
        country_at(i).name@ == "Croatia"@ ==> country_at(i).region@ == "Europe"@ && country_at(i).lat == 4581
            && country_at(i).lon == 1598 && country_at(i).iso@ == "HR"@,
        country_at(i).name@ == "Bulgaria"@ ==> country_at(i).region@ == "Europe"@ && country_at(i).lat == 4270
            && country_at(i).lon == 2332 && country_at(i).iso@ == "BG"@,
        country_at(i).name@ == "Serbia"@ ==> country_at(i).region@ == "Europe"@ && country_at(i).lat == 4480
            && country_at(i).lon == 2046 && country_at(i).iso@ == "RS"@,
        country_at(i).name@ == "Slovakia"@ ==> country_at(i).region@ == "Europe"@ && country_at(i).lat == 4815
            && country_at(i).lon == 1711 && country_at(i).iso@ == "SK"@,
        country_at(i).name@ == "United States"@ ==> country_at(i).region@ == "Americas"@ && country_at(i).lat == 3891
            && country_at(i).lon == -7704 && country_at(i).iso@ == "US"@,
        country_at(i).name@ == "Canada"@ ==> country_at(i).region@ == "Americas"@ && country_at(i).lat == 4542
            && country_at(i).lon == -7570 && country_at(i).iso@ == "CA"@,
        country_at(i).name@ == "Brazil"@ ==> country_at(i).region@ == "Americas"@ && country_at(i).lat == -1578
            && country_at(i).lon == -4793 && country_at(i).iso@ == "BR"@,
        country_at(i).name@ == "Argentina"@ ==> country_at(i).region@ == "Americas"@ && country_at(i).lat == -3461
            && country_at(i).lon == -5838 && country_at(i).iso@ == "AR"@,
        country_at(i).name@ == "Mexico"@ ==> country_at(i).region@ == "Americas"@ && country_at(i).lat == 1943
            && country_at(i).lon == -9913 && country_at(i).iso@ == "MX"@,
        country_at(i).name@ == "Colombia"@ ==> country_at(i).region@ == "Americas"@ && country_at(i).lat == 471
            && country_at(i).lon == -7407 && country_at(i).iso@ == "CO"@,
        country_at(i).name@ == "Chile"@ ==> country_at(i).region@ == "Americas"@ && country_at(i).lat == -3346
            && country_at(i).lon == -7065 && country_at(i).iso@ == "CL"@,
        country_at(i).name@ == "Peru"@ ==> country_at(i).region@ == "Americas"@ && country_at(i).lat == -1205
            && country_at(i).lon == -7705 && country_at(i).iso@ == "PE"@,
        country_at(i).name@ == "Cuba"@ ==> country_at(i).region@ == "Americas"@ && country_at(i).lat == 2313
            && country_at(i).lon == -8238 && country_at(i).iso@ == "CU"@,
        country_at(i).name@ == "Japan"@ ==> country_at(i).region@ == "Asia"@ && country_at(i).lat == 3569
            && country_at(i).lon == 13969 && country_at(i).iso@ == "JP"@,
        country_at(i).name@ == "China"@ ==> country_at(i).region@ == "Asia"@ && country_at(i).lat == 3991
            && country_at(i).lon == 11639 && country_at(i).iso@ == "CN"@,
        country_at(i).name@ == "India"@ ==> country_at(i).region@ == "Asia"@ && country_at(i).lat == 2861
            && country_at(i).lon == 7721 && country_at(i).iso@ == "IN"@,
        country_at(i).name@ == "South Korea"@ ==> country_at(i).region@ == "Asia"@ && country_at(i).lat == 3757
            && country_at(i).lon == 12698 && country_at(i).iso@ == "KR"@,
        country_at(i).name@ == "Thailand"@ ==> country_at(i).region@ == "Asia"@ && country_at(i).lat == 1375
            && country_at(i).lon == 10052 && country_at(i).iso@ == "TH"@,
        country_at(i).name@ == "Vietnam"@ ==> country_at(i).region@ == "Asia"@ && country_at(i).lat == 2103
            && country_at(i).lon == 10583 && country_at(i).iso@ == "VN"@,
        country_at(i).name@ == "Indonesia"@ ==> country_at(i).region@ == "Asia"@ && country_at(i).lat == -621
            && country_at(i).lon == 10685 && country_at(i).iso@ == "ID"@,
        country_at(i).name@ == "Malaysia"@ ==> country_at(i).region@ == "Asia"@ && country_at(i).lat == 314
            && country_at(i).lon == 10169 && country_at(i).iso@ == "MY"@,
        country_at(i).name@ == "Singapore"@ ==> country_at(i).region@ == "Asia"@ && country_at(i).lat == 136
            && country_at(i).lon == 10382 && country_at(i).iso@ == "SG"@,
        country_at(i).name@ == "Philippines"@ ==> country_at(i).region@ == "Asia"@ && country_at(i).lat == 1460
            && country_at(i).lon == 12098 && country_at(i).iso@ == "PH"@,
        country_at(i).name@ == "Nepal"@ ==> country_at(i).region@ == "Asia"@ && country_at(i).lat == 2770
            && country_at(i).lon == 8531 && country_at(i).iso@ == "NP"@,
        country_at(i).name@ == "Sri Lanka"@ ==> country_at(i).region@ == "Asia"@ && country_at(i).lat == 693
            && country_at(i).lon == 7985 && country_at(i).iso@ == "LK"@,
        country_at(i).name@ == "Taiwan"@ ==> country_at(i).region@ == "Asia"@ && country_at(i).lat == 2505
            && country_at(i).lon == 12152 && country_at(i).iso@ == "TW"@,
        country_at(i).name@ == "Turkey"@ ==> country_at(i).region@ == "Asia"@ && country_at(i).lat == 3993
            && country_at(i).lon == 3286 && country_at(i).iso@ == "TR"@,
        country_at(i).name@ == "Pakistan"@ ==> country_at(i).region@ == "Asia"@ && country_at(i).lat == 3372
            && country_at(i).lon == 7306 && country_at(i).iso@ == "PK"@,
        country_at(i).name@ == "Bangladesh"@ ==> country_at(i).region@ == "Asia"@ && country_at(i).lat == 2373
            && country_at(i).lon == 9039 && country_at(i).iso@ == "BD"@,
        country_at(i).name@ == "Kazakhstan"@ ==> country_at(i).region@ == "Asia"@ && country_at(i).lat == 5116
            && country_at(i).lon == 7145 && country_at(i).iso@ == "KZ"@,
        country_at(i).name@ == "Georgia"@ ==> country_at(i).region@ == "Asia"@ && country_at(i).lat == 4169
            && country_at(i).lon == 4483 && country_at(i).iso@ == "GE"@,
        country_at(i).name@ == "Armenia"@ ==> country_at(i).region@ == "Asia"@ && country_at(i).lat == 4018
            && country_at(i).lon == 4451 && country_at(i).iso@ == "AM"@,
        country_at(i).name@ == "Israel"@ ==> country_at(i).region@ == "Middle East"@ && country_at(i).lat == 3177
            && country_at(i).lon == 3522 && country_at(i).iso@ == "IL"@,
        country_at(i).name@ == "Jordan"@ ==> country_at(i).region@ == "Middle East"@ && country_at(i).lat == 3195
            && country_at(i).lon == 3593 && country_at(i).iso@ == "JO"@,
        country_at(i).name@ == "United Arab Emirates"@ ==> country_at(i).region@ == "Middle East"@ && country_at(i).lat == 2445
            && country_at(i).lon == 5438 && country_at(i).iso@ == "AE"@,
        country_at(i).name@ == "Saudi Arabia"@ ==> country_at(i).region@ == "Middle East"@ && country_at(i).lat == 2469
            && country_at(i).lon == 4672 && country_at(i).iso@ == "SA"@,
        country_at(i).name@ == "Iran"@ ==> country_at(i).region@ == "Middle East"@ && country_at(i).lat == 3569
            && country_at(i).lon == 5142 && country_at(i).iso@ == "IR"@,
        country_at(i).name@ == "South Africa"@ ==> country_at(i).region@ == "Africa"@ && country_at(i).lat == -2575
            && country_at(i).lon == 2819 && country_at(i).iso@ == "ZA"@,
        country_at(i).name@ == "Egypt"@ ==> country_at(i).region@ == "Africa"@ && country_at(i).lat == 3006
            && country_at(i).lon == 3125 && country_at(i).iso@ == "EG"@,
        country_at(i).name@ == "Kenya"@ ==> country_at(i).region@ == "Africa"@ && country_at(i).lat == -129
            && country_at(i).lon == 3682 && country_at(i).iso@ == "KE"@,
        country_at(i).name@ == "Morocco"@ ==> country_at(i).region@ == "Africa"@ && country_at(i).lat == 3401
            && country_at(i).lon == -685 && country_at(i).iso@ == "MA"@,
        country_at(i).name@ == "Tanzania"@ ==> country_at(i).region@ == "Africa"@ && country_at(i).lat == -617
            && country_at(i).lon == 3574 && country_at(i).iso@ == "TZ"@,
        country_at(i).name@ == "Ethiopia"@ ==> country_at(i).region@ == "Africa"@ && country_at(i).lat == 903
            && country_at(i).lon == 3874 && country_at(i).iso@ == "ET"@,
        country_at(i).name@ == "Ghana"@ ==> country_at(i).region@ == "Africa"@ && country_at(i).lat == 556
            && country_at(i).lon == -20 && country_at(i).iso@ == "GH"@,
        country_at(i).name@ == "Nigeria"@ ==> country_at(i).region@ == "Africa"@ && country_at(i).lat == 907
            && country_at(i).lon == 740 && country_at(i).iso@ == "NG"@,
        country_at(i).name@ == "Tunisia"@ ==> country_at(i).region@ == "Africa"@ && country_at(i).lat == 3682
            && country_at(i).lon == 1016 && country_at(i).iso@ == "TN"@,
        country_at(i).name@ == "Senegal"@ ==> country_at(i).region@ == "Africa"@ && country_at(i).lat == 1474
            && country_at(i).lon == -1747 && country_at(i).iso@ == "SN"@,
        country_at(i).name@ == "Uganda"@ ==> country_at(i).region@ == "Africa"@ && country_at(i).lat == 32
            && country_at(i).lon == 3258 && country_at(i).iso@ == "UG"@,
        country_at(i).name@ == "Australia"@ ==> country_at(i).region@ == "Oceania"@ && country_at(i).lat == -3528
            && country_at(i).lon == 14913 && country_at(i).iso@ == "AU"@,
        country_at(i).name@ == "New Zealand"@ ==> country_at(i).region@ == "Oceania"@ && country_at(i).lat == -4129
            && country_at(i).lon == 17478 && country_at(i).iso@ == "NZ"@,
        country_at(i).name@ == "Fiji"@ ==> country_at(i).region@ == "Oceania"@ && country_at(i).lat == -1814
            && country_at(i).lon == 17844 && country_at(i).iso@ == "FJ"@,
{
    lemma_name_place(i);
    lemma_written_names();
}

/// Every country lies in the box of its region: from its southernmost to its northernmost
/// and from its westernmost to its easternmost point.
pub proof fn law_countries_lie_in_their_region(i: int)
    requires
        0 <= i < COUNTRY_COUNT,
    ensures
        country_at(i).region@ == "Europe"@ || country_at(i).region@ == "Americas"@ || country_at(i).region@ == "Asia"@ || country_at(i).region@ == "Middle East"@ || country_at(i).region@ == "Africa"@ || country_at(i).region@ == "Oceania"@,
        country_at(i).region@ == "Europe"@ ==> 3798 <= country_at(i).lat <= 6414 && -2194 <= country_at(i).lon
            <= 2610,
        country_at(i).region@ == "Americas"@ ==> -3461 <= country_at(i).lat <= 4542 && -9913 <= country_at(i).lon
            <= -4793,
        country_at(i).region@ == "Asia"@ ==> -621 <= country_at(i).lat <= 5116 && 3286 <= country_at(i).lon
            <= 13969,
        country_at(i).region@ == "Middle East"@ ==> 2445 <= country_at(i).lat <= 3569 && 3522 <= country_at(i).lon
            <= 5438,
        country_at(i).region@ == "Africa"@ ==> -2575 <= country_at(i).lat <= 3682 && -1747 <= country_at(i).lon
            <= 3874,
        country_at(i).region@ == "Oceania"@ ==> -4129 <= country_at(i).lat <= -1814 && 14913 <= country_at(i).lon
            <= 17844,
{
    reveal_strlit("Europe");
    reveal_strlit("Americas");
    reveal_strlit("Asia");
    reveal_strlit("Middle East");
    reveal_strlit("Africa");
    reveal_strlit("Oceania");
    lemma_regions_differ();
}

spec fn region_key(s: Seq<char>) -> int {
    s.len() * 1000 + s[0] as int
}

proof fn lemma_regions_differ()
    ensures
        region_key("Europe"@) == 6069,
        region_key("Americas"@) == 8065,
        region_key("Asia"@) == 4065,
        region_key("Middle East"@) == 11077,
        region_key("Africa"@) == 6065,
        region_key("Oceania"@) == 7079,
{
    reveal_strlit("Europe");
    reveal_strlit("Americas");
    reveal_strlit("Asia");
    reveal_strlit("Middle East");
    reveal_strlit("Africa");
    reveal_strlit("Oceania");
}

/// A number made of the two letters of a country code.
pub open spec fn iso_key(s: Seq<char>) -> int {
    s[0] as int * 128 + s[1] as int
}

/// The place of a country by the number of its code.
spec fn place_of_iso(key: int) -> int {
    if key == 8773 {
        0
    } else if key == 9042 {
        1
    } else if key == 9154 {
        2
    } else if key == 9428 {
        3
    } else if key == 8915 {
        4
    } else if key == 10060 {
        5
    } else if key == 10693 {
        6
    } else if key == 10063 {
        7
    } else if key == 8779 {
        8
    } else if key == 8648 {
        9
    } else if key == 8404 {
        10
    } else if key == 8517 {
        11
    } else if key == 10324 {
        12
    } else if key == 10316 {
        13
    } else if key == 8666 {
        14
    } else if key == 9301 {
        15
    } else if key == 10575 {
        16
    } else if key == 9170 {
        17
    } else if key == 9033 {
        18
    } else if key == 9427 {
        19
    } else if key == 9413 {
        20
    } else if key == 9298 {
        21
    } else if key == 8519 {
        22
    } else if key == 10579 {
        23
    } else if key == 10699 {
        24
    } else if key == 10963 {
        25
    } else if key == 8641 {
        26
    } else if key == 8530 {
        27
    } else if key == 8402 {
        28
    } else if key == 9944 {
        29
    } else if key == 8655 {
        30
    } else if key == 8652 {
        31
    } else if key == 10309 {
        32
    } else if key == 8661 {
        33
    } else if key == 9552 {
        34
    } else if key == 8654 {
        35
    } else if key == 9422 {
        36
    } else if key == 9682 {
        37
    } else if key == 10824 {
        38
    } else if key == 11086 {
        39
    } else if key == 9412 {
        40
    } else if key == 9945 {
        41
    } else if key == 10695 {
        42
    } else if key == 10312 {
        43
    } else if key == 10064 {
        44
    } else if key == 9803 {
        45
    } else if key == 10839 {
        46
    } else if key == 10834 {
        47
    } else if key == 10315 {
        48
    } else if key == 8516 {
        49
    } else if key == 9690 {
        50
    } else if key == 9157 {
        51
    } else if key == 8397 {
        52
    } else if key == 9420 {
        53
    } else if key == 9551 {
        54
    } else if key == 8389 {
        55
    } else if key == 10689 {
        56
    } else if key == 9426 {
        57
    } else if key == 11585 {
        58
    } else if key == 8903 {
        59
    } else if key == 9669 {
        60
    } else if key == 9921 {
        61
    } else if key == 10842 {
        62
    } else if key == 8916 {
        63
    } else if key == 9160 {
        64
    } else if key == 10055 {
        65
    } else if key == 10830 {
        66
    } else if key == 10702 {
        67
    } else if key == 10951 {
        68
    } else if key == 8405 {
        69
    } else if key == 10074 {
        70
    } else if key == 9034 {
        71
    } else {
        -1
    }
}

proof fn lemma_iso_place(i: int)
    requires
        0 <= i < COUNTRY_COUNT,
    ensures
        place_of_iso(iso_key(country_at(i).iso@)) == i,
        country_at(i).iso@.len() == 2,
        'A' <= country_at(i).iso@[0] <= 'Z',
        'A' <= country_at(i).iso@[1] <= 'Z',
{
    reveal_strlit("DE");
    reveal_strlit("FR");
    reveal_strlit("GB");
    reveal_strlit("IT");
    reveal_strlit("ES");
    reveal_strlit("NL");
    reveal_strlit("SE");
    reveal_strlit("NO");
    reveal_strlit("DK");
    reveal_strlit("CH");
    reveal_strlit("AT");
    reveal_strlit("BE");
    reveal_strlit("PT");
    reveal_strlit("PL");
    reveal_strlit("CZ");
    reveal_strlit("HU");
    reveal_strlit("RO");
    reveal_strlit("GR");
    reveal_strlit("FI");
    reveal_strlit("IS");
    reveal_strlit("IE");
    reveal_strlit("HR");
    reveal_strlit("BG");
    reveal_strlit("RS");
    reveal_strlit("SK");
    reveal_strlit("US");
    reveal_strlit("CA");
    reveal_strlit("BR");
    reveal_strlit("AR");
    reveal_strlit("MX");
    reveal_strlit("CO");
    reveal_strlit("CL");
    reveal_strlit("PE");
    reveal_strlit("CU");
    reveal_strlit("JP");
    reveal_strlit("CN");
    reveal_strlit("IN");
    reveal_strlit("KR");
    reveal_strlit("TH");
    reveal_strlit("VN");
    reveal_strlit("ID");
    reveal_strlit("MY");
    reveal_strlit("SG");
    reveal_strlit("PH");
    reveal_strlit("NP");
    reveal_strlit("LK");
    reveal_strlit("TW");
    reveal_strlit("TR");
    reveal_strlit("PK");
    reveal_strlit("BD");
    reveal_strlit("KZ");
    reveal_strlit("GE");
    reveal_strlit("AM");
    reveal_strlit("IL");
    reveal_strlit("JO");
    reveal_strlit("AE");
    reveal_strlit("SA");
    reveal_strlit("IR");
    reveal_strlit("ZA");
    reveal_strlit("EG");
    reveal_strlit("KE");
    reveal_strlit("MA");
    reveal_strlit("TZ");
    reveal_strlit("ET");
    reveal_strlit("GH");
    reveal_strlit("NG");
    reveal_strlit("TN");
    reveal_strlit("SN");
    reveal_strlit("UG");
    reveal_strlit("AU");
    reveal_strlit("NZ");
    reveal_strlit("FJ");
}

/// No two countries have the same code, and a code is found whatever its case.
pub proof fn law_country_codes_differ(i: int, j: int)
    requires
        0 <= i < j < COUNTRY_COUNT,
    ensures
        country_at(i).iso@ != country_at(j).iso@,
        !same_letters(country_at(i).iso@, country_at(j).iso@),
{
    lemma_iso_place(i);
    lemma_iso_place(j);
    let a = country_at(i).iso@;
    let b = country_at(j).iso@;
    if same_letters(a, b) {
        let la = a.map_values(|c: char| text::ascii_lower(c));
        let lb = b.map_values(|c: char| text::ascii_lower(c));
        assert(la[0] == text::ascii_lower(a[0]) && la[1] == text::ascii_lower(a[1]));
        assert(lb[0] == text::ascii_lower(b[0]) && lb[1] == text::ascii_lower(b[1]));
        assert(a[0] == b[0] && a[1] == b[1]);
    }
}

/// No two countries have the same name.
pub proof fn law_country_names_differ(i: int, j: int)
    requires
        0 <= i < j < COUNTRY_COUNT,
    ensures
        country_at(i).name@ != country_at(j).name@,
{
    lemma_name_place(i);
    lemma_name_place(j);
}

/// All country names, in order.
pub fn all_names() -> (r: Vec<&'static str>)
    ensures
        r@ == Seq::new(COUNTRY_COUNT as nat, |i: int| country_at(i).name),
{
    let mut r: Vec<&'static str> = Vec::new();
    let mut i: usize = 0;
    while i < COUNTRY_COUNT
        invariant
            i <= COUNTRY_COUNT,
            r@ == Seq::new(i as nat, |k: int| country_at(k).name),
        decreases COUNTRY_COUNT - i,
    {
        r.push(country(i).name);
        i = i + 1;
        assert(r@ =~= Seq::new(i as nat, |k: int| country_at(k).name));
    }
    r
}

/// Whether two texts are equal up to the case of ASCII letters.
pub open spec fn same_letters(a: Seq<char>, b: Seq<char>) -> bool {
    a.map_values(|c: char| text::ascii_lower(c)) == b.map_values(|c: char| text::ascii_lower(c))
}

/// Whether two texts are equal up to the case of ASCII letters.
pub fn equal_ignoring_case(a: &str, b: &str) -> (r: bool)
    ensures
        r == same_letters(a@, b@),
        r <==> a@.len() == b@.len() && forall|i: int|
            0 <= i < a@.len() ==> text::ascii_lower(#[trigger] a@[i]) == text::ascii_lower(b@[i]),
{
    let x = text::chars_of(a);
    let y = text::chars_of(b);
    let ghost lx = a@.map_values(|c: char| text::ascii_lower(c));
    let ghost ly = b@.map_values(|c: char| text::ascii_lower(c));
    proof {
        if lx == ly {
            assert(lx.len() == ly.len());
            assert forall|i: int| 0 <= i < a@.len() implies text::ascii_lower(#[trigger] a@[i])
                == text::ascii_lower(b@[i]) by {
                assert(lx[i] == ly[i]);
            }
        }
        if a@.len() == b@.len() && forall|i: int|
            0 <= i < a@.len() ==> text::ascii_lower(#[trigger] a@[i]) == text::ascii_lower(b@[i]) {
            assert forall|i: int| 0 <= i < lx.len() implies lx[i] == ly[i] by {
                assert(text::ascii_lower(a@[i]) == text::ascii_lower(b@[i]));
            }
            assert(lx =~= ly);
        }
    }
    if x.len() != y.len() {
        assert(lx.len() != ly.len());
        return false;
    }
    let mut i: usize = 0;
    while i < x.len()
        invariant
            i <= x@.len(),
            x@ == a@,
            y@ == b@,
            x@.len() == y@.len(),
            lx == a@.map_values(|c: char| text::ascii_lower(c)),
            ly == b@.map_values(|c: char| text::ascii_lower(c)),
            forall|k: int| 0 <= k < i ==> lx[k] == ly[k],
        decreases x@.len() - i,
    {
        if text::char_ascii_lower(x[i]) != text::char_ascii_lower(y[i]) {
            assert(lx[i as int] != ly[i as int]);
            return false;
        }
        i = i + 1;
    }
    assert(lx =~= ly);
    true
}

/// The position of the first country with this code, whatever its case.
pub open spec fn index_of_iso(iso: Seq<char>, i: int) -> Option<int>
    decreases COUNTRY_COUNT - i,
{
    if i >= COUNTRY_COUNT {
        None
    } else if same_letters(country_at(i).iso@, iso) {
        Some(i)
    } else {
        index_of_iso(iso, i + 1)
    }
}

/// Looks up a country by its ISO code.
pub fn by_iso(iso: &str) -> (r: Option<Country>)
    ensures
        r is Some == index_of_iso(iso@, 0) is Some,
        r matches Some(c) ==> c == country_at(index_of_iso(iso@, 0)->0),
        r matches Some(c) ==> same_letters(c.iso@, iso@) && exists|i: int|
            0 <= i < COUNTRY_COUNT && #[trigger] country_at(i) == c,
        r is None ==> forall|i: int|
            0 <= i < COUNTRY_COUNT ==> !same_letters((#[trigger] country_at(i)).iso@, iso@),
{
    let mut i: usize = 0;
    while i < COUNTRY_COUNT
        invariant
            i <= COUNTRY_COUNT,
            index_of_iso(iso@, i as int) == index_of_iso(iso@, 0),
            forall|k: int|
                0 <= k < i ==> !same_letters((#[trigger] country_at(k)).iso@, iso@),
        decreases COUNTRY_COUNT - i,
    {
        let c = country(i);
        if equal_ignoring_case(c.iso, iso) {
            assert(country_at(i as int) == c);
            return Some(c);
        }
        i = i + 1;
    }
    None
}

/// The position of the first country with this name.
pub open spec fn index_of_name(name: Seq<char>, i: int) -> Option<int>
    decreases COUNTRY_COUNT - i,
{
    if i >= COUNTRY_COUNT {
        None
    } else if country_at(i).name@ == name {
        Some(i)
    } else {
        index_of_name(name, i + 1)
    }
}

/// Where a guess is measured from.
#[derive(Clone, Copy, Debug, PartialEq, Eq, Structural)]
pub enum Target {
    /// The coordinates of the photo.
    Photo(crate::bits::F64Bits, crate::bits::F64Bits),
    /// The point of the country, in hundredths of a degree.
    CountryPoint(i32, i32),
    /// Latitude and longitude 0.
    Origin,
}

/// The place that guesses for an image are measured from: the photo's own
/// coordinates where it has both, otherwise the point of its country.
pub open spec fn target_of(
    lat: Option<crate::bits::F64Bits>,
    lon: Option<crate::bits::F64Bits>,
    country_name: Seq<char>,
) -> Target {
    if lat is Some && lon is Some {
        Target::Photo(lat->0, lon->0)
    } else {
        match index_of_name(country_name, 0) {
            Some(i) => Target::CountryPoint(country_at(i).lat, country_at(i).lon),
            None => Target::Origin,
        }
    }
}

/// The place that guesses for an image are measured from.
pub fn guess_target(img: &GeoImage) -> (r: Target)
    ensures
        r == target_of(img.lat, img.lon, img.country@),
        img.lat is Some && img.lon is Some ==> r == Target::Photo(img.lat->0, img.lon->0),
        !(img.lat is Some && img.lon is Some) ==> {
            &&& forall|i: int|
                0 <= i < COUNTRY_COUNT && (#[trigger] country_at(i)).name@ == img.country@ ==> r
                    == Target::CountryPoint(country_at(i).lat, country_at(i).lon)
            &&& (forall|i: int|
                0 <= i < COUNTRY_COUNT ==> (#[trigger] country_at(i)).name@ != img.country@) ==> r
                == Target::Origin
        },
{
    if let (Some(lat), Some(lon)) = (img.lat, img.lon) {
        return Target::Photo(lat, lon);
    }
    let mut i: usize = 0;
    while i < COUNTRY_COUNT
        invariant
            i <= COUNTRY_COUNT,
            index_of_name(img.country@, i as int) == index_of_name(img.country@, 0),
            !(img.lat is Some && img.lon is Some),
            forall|k: int| 0 <= k < i ==> (#[trigger] country_at(k)).name@ != img.country@,
        decreases COUNTRY_COUNT - i,
    {
        let c = country(i);
        if text::same_text(c.name, img.country.as_str()) {
            proof {
                assert(country_at(i as int) == c);
                assert forall|k: int|
                    0 <= k < COUNTRY_COUNT && (#[trigger] country_at(k)).name@
                        == img.country@ implies k == i by {
                    if k > i {
                        law_country_names_differ(i as int, k);
                    }
                }
            }
            return Target::CountryPoint(c.lat, c.lon);
        }
        i = i + 1;
    }
    Target::Origin
}

// ── Seeds ────────────────────────────────────────────────────────────────────

/// A point around which photos are looked for.
#[derive(Clone, Copy)]
pub struct LocationSeed {
    pub country: Country,
    pub city: &'static str,
    /// Latitude and longitude in hundredths of a degree.
    pub lat: i32,
    pub lon: i32,
}

/// The seed of a country: its point, under the name of the country.
pub open spec fn seed_of(c: Country) -> LocationSeed {
    LocationSeed { country: c, city: c.name, lat: c.lat, lon: c.lon }
}

/// One seed for each country, in order.
pub fn location_seeds() -> (r: Vec<LocationSeed>)
    ensures
        r@ == Seq::new(COUNTRY_COUNT as nat, |i: int| seed_of(country_at(i))),
        r@.len() == 72,
        forall|i: int|
            0 <= i < r@.len() ==> (#[trigger] r@[i]).country == country_at(i) && r@[i].city@
                == country_at(i).name@ && r@[i].lat == country_at(i).lat && r@[i].lon
                == country_at(i).lon,
{
    let mut r: Vec<LocationSeed> = Vec::new();
    let mut i: usize = 0;
    while i < COUNTRY_COUNT
        invariant
            i <= COUNTRY_COUNT,
            r@ == Seq::new(i as nat, |k: int| seed_of(country_at(k))),
        decreases COUNTRY_COUNT - i,
    {
        let c = country(i);
        r.push(LocationSeed { country: c, city: c.name, lat: c.lat, lon: c.lon });
        i = i + 1;
        assert(r@ =~= Seq::new(i as nat, |k: int| seed_of(country_at(k))));
    }
    r
}

// ── Distractors ──────────────────────────────────────────────────────────────

/// Whether country `i` is in the region (or, with `inside` false, outside of it)
/// and is not the correct answer.
pub open spec fn eligible(i: int, correct: Seq<char>, region: Seq<char>, inside: bool) -> bool {
    &&& 0 <= i < COUNTRY_COUNT
    &&& (country_at(i).region@ == region) == inside
    &&& country_at(i).name@ != correct
}

/// Whether `picked` are wrong answers: no country twice, none of them correct,
/// and countries outside the region only behind those inside it.
pub open spec fn are_distractors(picked: Seq<usize>, correct: Seq<char>, region: Seq<char>) -> bool {
    &&& picked.no_duplicates()
    &&& forall|k: int|
        0 <= k < picked.len() ==> eligible(#[trigger] picked[k] as int, correct, region, true)
            || eligible(picked[k] as int, correct, region, false)
    &&& forall|k: int, l: int|
        #![trigger picked[k], picked[l]]
        0 <= k < l < picked.len() && eligible(picked[l] as int, correct, region, true)
            ==> eligible(picked[k] as int, correct, region, true)
}

/// Whether `picked` leaves out no country inside the region while it holds one
/// outside of it, and leaves out none at all where fewer than `n` are picked.
pub open spec fn picks_enough(
    picked: Seq<usize>,
    correct: Seq<char>,
    region: Seq<char>,
    n: nat,
) -> bool {
    &&& picked.len() <= n
    &&& forall|i: usize|
        #![trigger picked.contains(i)]
        eligible(i as int, correct, region, true) && !picked.contains(i) ==> forall|k: int|
            0 <= k < picked.len() ==> eligible(#[trigger] picked[k] as int, correct, region, true)
    &&& picked.len() < n ==> forall|i: usize|
        #![trigger picked.contains(i)]
        eligible(i as int, correct, region, true) || eligible(i as int, correct, region, false)
            ==> picked.contains(i)
}

/// Whether a text is the name of a country.
pub open spec fn is_country(name: Seq<char>) -> bool {
    exists|j: int| 0 <= j < 72 && (#[trigger] country_at(j)).name@ == name
}

/// Whether a country of that name lies in a region.
pub open spec fn lies_in(name: Seq<char>, region: Seq<char>) -> bool {
    exists|j: int|
        0 <= j < 72 && (#[trigger] country_at(j)).name@ == name && country_at(j).region@ == region
}

fn eligible_countries(correct: &str, region: &str, inside: bool) -> (r: Vec<usize>)
    ensures
        r@.no_duplicates(),
        forall|k: int| 0 <= k < r@.len() ==> eligible(#[trigger] r@[k] as int, correct@, region@, inside),
        forall|i: usize| eligible(i as int, correct@, region@, inside) ==> #[trigger] r@.contains(i),
{
    let mut r: Vec<usize> = Vec::new();
    let mut i: usize = 0;
    while i < COUNTRY_COUNT
        invariant
            i <= COUNTRY_COUNT,
            r@.no_duplicates(),
            forall|k: int|
                0 <= k < r@.len() ==> eligible(#[trigger] r@[k] as int, correct@, region@, inside)
                    && r@[k] < i,
            forall|j: usize|
                j < i && eligible(j as int, correct@, region@, inside) ==> #[trigger] r@.contains(j),
        decreases COUNTRY_COUNT - i,
    {
        let c = country(i);
        let ghost before = r@;
        if text::same_text(c.region, region) == inside && !text::same_text(c.name, correct) {
            r.push(i);
            assert(r@[before.len() as int] == i);
        }
        assert forall|j: usize| j < i + 1 && eligible(j as int, correct@, region@, inside) implies #[trigger] r@.contains(
            j,
        ) by {
            if j < i {
                assert(before.contains(j));
                let k = choose|k: int| 0 <= k < before.len() && before[k] == j;
                assert(r@[k] == j);
            } else {
                assert(r@[before.len() as int] == j);
            }
        }
        i = i + 1;
    }
    r
}

/// The same countries in random order.
fn mixed(v: Vec<usize>) -> (r: Vec<usize>)
    requires
        v@.no_duplicates(),
    ensures
        r@.no_duplicates(),
        r@.len() == v@.len(),
        forall|i: usize| #[trigger] r@.contains(i) == v@.contains(i),
{
    let ghost base = v@;
    let r = random::shuffle(v);
    proof {
        random::lemma_same_elements(base, r@);
    }
    r
}

/// Picks `n` wrong answers, or as many as there are, preferring the region of
/// the correct one.
pub fn pick_distractors(correct: &str, correct_region: &str, n: usize) -> (out: Vec<String>)
    ensures
        exists|picked: Seq<usize>|
            #![trigger are_distractors(picked, correct@, correct_region@)]
            are_distractors(picked, correct@, correct_region@) && picks_enough(
                picked,
                correct@,
                correct_region@,
                n as nat,
            ) && text::views(out@) == picked.map_values(|i: usize| country_at(i as int).name@),
        text::views(out@).no_duplicates(),
        !text::views(out@).contains(correct@),
        out@.len() <= n,
        forall|k: int| 0 <= k < out@.len() ==> is_country((#[trigger] out@[k])@),
        forall|i: int, k: int|
            #![trigger country_at(i), out@[k]]
            0 <= i < 72 && country_at(i).region@ == correct_region@ && country_at(i).name@
                != correct@ && !text::views(out@).contains(country_at(i).name@) && 0 <= k
                < out@.len() ==> lies_in(out@[k]@, correct_region@),
        forall|i: int|
            0 <= i < 72 && out@.len() < n && (#[trigger] country_at(i)).name@ != correct@
                ==> text::views(out@).contains(country_at(i).name@),
{
    let inside = eligible_countries(correct, correct_region, true);
    let outside = eligible_countries(correct, correct_region, false);
    let ghost inside_all = inside@;
    let ghost outside_all = outside@;
    let near = mixed(inside);
    let far = mixed(outside);
    proof {
        assert forall|j: int| 0 <= j < near@.len() implies eligible(
            #[trigger] near@[j] as int,
            correct@,
            correct_region@,
            true,
        ) by {
            assert(near@.contains(near@[j]));
            assert(inside_all.contains(near@[j]));
        }
        assert forall|j: int| 0 <= j < far@.len() implies eligible(
            #[trigger] far@[j] as int,
            correct@,
            correct_region@,
            false,
        ) by {
            assert(far@.contains(far@[j]));
            assert(outside_all.contains(far@[j]));
        }
    }
    let mut picked: Vec<usize> = Vec::new();
    let mut out: Vec<String> = Vec::new();
    let mut k: usize = 0;
    while picked.len() < n && k < near.len()
        invariant
            k <= near@.len(),
            picked@ == near@.take(k as int),
            picked@.len() <= n,
            forall|j: int|
                0 <= j < near@.len() ==> eligible(#[trigger] near@[j] as int, correct@, correct_region@, true),
            text::views(out@) == picked@.map_values(|i: usize| country_at(i as int).name@),
        decreases near@.len() - k,
    {
        let ghost before = picked@;
        let ghost texts = text::views(out@);
        let i: usize = near[k];
        assert(eligible(near@[k as int] as int, correct@, correct_region@, true));
        out.push(text::owned(country(i).name));
        picked.push(i);
        assert(text::views(out@) =~= texts.push(country_at(i as int).name@));
        assert(picked@.map_values(|i: usize| country_at(i as int).name@) =~= before.map_values(
            |i: usize| country_at(i as int).name@,
        ).push(country_at(i as int).name@));
        assert(near@.take(k as int + 1) =~= near@.take(k as int).push(near@[k as int]));
        k = k + 1;
    }
    let taken: usize = k;
    let mut l: usize = 0;
    assert(picked@ + far@.take(0) =~= picked@);
    let ghost head = picked@;
    while picked.len() < n && l < far.len()
        invariant
            l <= far@.len(),
            picked@ == head + far@.take(l as int),
            picked@.len() <= n,
            forall|j: int|
                0 <= j < far@.len() ==> eligible(#[trigger] far@[j] as int, correct@, correct_region@, false),
            text::views(out@) == picked@.map_values(|i: usize| country_at(i as int).name@),
        decreases far@.len() - l,
    {
        let ghost before = picked@;
        let ghost texts = text::views(out@);
        let i: usize = far[l];
        assert(eligible(far@[l as int] as int, correct@, correct_region@, false));
        out.push(text::owned(country(i).name));
        picked.push(i);
        assert(text::views(out@) =~= texts.push(country_at(i as int).name@));
        assert(picked@.map_values(|i: usize| country_at(i as int).name@) =~= before.map_values(
            |i: usize| country_at(i as int).name@,
        ).push(country_at(i as int).name@));
        assert(far@.take(l as int + 1) =~= far@.take(l as int).push(far@[l as int]));
        l = l + 1;
    }
    proof {
        let p = picked@;
        let h = head.len() as int;
        assert(head == near@.take(taken as int));
        assert forall|i: int| 0 <= i < p.len() implies eligible(
            #[trigger] p[i] as int,
            correct@,
            correct_region@,
            i < h,
        ) by {
            if i < h {
                assert(p[i] == near@[i]);
            } else {
                assert(p[i] == far@[i - h]);
            }
        }
        assert(p.no_duplicates()) by {
            assert forall|i: int, j: int| 0 <= i < p.len() && 0 <= j < p.len() && i != j implies p[i]
                != p[j] by {
                assert(eligible(p[i] as int, correct@, correct_region@, i < h));
                assert(eligible(p[j] as int, correct@, correct_region@, j < h));
                if i < h && j < h {
                    assert(p[i] == near@[i] && p[j] == near@[j]);
                } else if i >= h && j >= h {
                    assert(p[i] == far@[i - h] && p[j] == far@[j - h]);
                }
            }
        }
        assert forall|i: usize|
            #![trigger p.contains(i)]
            eligible(i as int, correct@, correct_region@, true) && !p.contains(i) implies forall|k: int|

            0 <= k < p.len() ==> eligible(#[trigger] p[k] as int, correct@, correct_region@, true) by {
            assert(inside_all.contains(i));
            assert(near@.contains(i));
            let at = choose|at: int| 0 <= at < near@.len() && near@[at] == i;
            if taken == near@.len() {
                assert(p[at] == i);
            }
        }
        assert forall|i: usize|
            #![trigger p.contains(i)]
            p.len() < n && (eligible(i as int, correct@, correct_region@, true) || eligible(
                i as int,
                correct@,
                correct_region@,
                false,
            )) implies p.contains(i) by {
            if eligible(i as int, correct@, correct_region@, true) {
                assert(inside_all.contains(i));
                assert(near@.contains(i));
                let at = choose|at: int| 0 <= at < near@.len() && near@[at] == i;
                assert(p[at] == i);
            } else {
                assert(outside_all.contains(i));
                assert(far@.contains(i));
                let at = choose|at: int| 0 <= at < far@.len() && far@[at] == i;
                assert(p[h + at] == i);
            }
        }
        assert(are_distractors(p, correct@, correct_region@));
        let names = text::views(out@);
        assert forall|i: int, j: int| 0 <= i < names.len() && 0 <= j < names.len() && i != j implies names[i]
            != names[j] by {
            assert(eligible(p[i] as int, correct@, correct_region@, i < h));
            assert(eligible(p[j] as int, correct@, correct_region@, j < h));
            assert(p[i] != p[j]);
            if p[i] < p[j] {
                law_country_names_differ(p[i] as int, p[j] as int);
            } else {
                law_country_names_differ(p[j] as int, p[i] as int);
            }
        }
        assert forall|i: int| 0 <= i < names.len() implies names[i] != correct@ by {
            assert(eligible(p[i] as int, correct@, correct_region@, i < h));
        }
        assert forall|k: int| 0 <= k < out@.len() implies is_country((#[trigger] out@[k])@) by {
            assert(names[k] == country_at(p[k] as int).name@);
            assert(eligible(p[k] as int, correct@, correct_region@, k < h));
        }
        assert forall|i: int, k: int|
            #![trigger country_at(i), out@[k]]
            0 <= i < 72 && country_at(i).region@ == correct_region@ && country_at(i).name@
                != correct@ && !names.contains(country_at(i).name@) && 0 <= k < out@.len() implies lies_in(
            out@[k]@,
            correct_region@,
        ) by {
            let u = i as usize;
            assert(eligible(u as int, correct@, correct_region@, true));
            if p.contains(u) {
                let at = choose|at: int| 0 <= at < p.len() && p[at] == u;
                assert(names[at] == country_at(i).name@);
            }
            assert(!p.contains(u));
            assert(eligible(p[k] as int, correct@, correct_region@, true));
            assert(names[k] == country_at(p[k] as int).name@);
            assert(names[k] == out@[k]@);
        }
        assert forall|i: int|
            0 <= i < 72 && out@.len() < n && (#[trigger] country_at(i)).name@
                != correct@ implies names.contains(country_at(i).name@) by {
            let u = i as usize;
            assert(eligible(u as int, correct@, correct_region@, true) || eligible(
                u as int,
                correct@,
                correct_region@,
                false,
            ));
            assert(names.len() == p.len());
            assert(p.contains(u));
            let at = choose|at: int| 0 <= at < p.len() && p[at] == u;
            assert(names[at] == country_at(i).name@);
        }
    }
    out
}

} // verus!
