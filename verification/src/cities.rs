//! The cities whose surroundings give the regional backdrop.

use vstd::prelude::*;

use crate::backdrop::GridCell;

verus! {

/// The capitals of Europe: latitude and longitude in hundredths of a degree.
pub open spec fn capitals() -> Seq<(i32, i32)> {
    seq![
        (4821i32, 1637i32),  // Vienna, AT
        (5085i32, 435i32),  // Brussels, BE
        (4270i32, 2332i32),  // Sofia, BG
        (4581i32, 1598i32),  // Zagreb, HR
        (3517i32, 3337i32),  // Nicosia, CY
        (5008i32, 1444i32),  // Prague, CZ
        (5568i32, 1257i32),  // Copenhagen, DK
        (5944i32, 2475i32),  // Tallinn, EE
        (6017i32, 2494i32),  // Helsinki, FI
        (4886i32, 235i32),  // Paris, FR
        (5252i32, 1340i32),  // Berlin, DE
        (3798i32, 2373i32),  // Athens, GR
        (4750i32, 1904i32),  // Budapest, HU
        (6414i32, -2190i32),  // Reykjavik, IS
        (5333i32, -625i32),  // Dublin, IE
        (4190i32, 1250i32),  // Rome, IT
        (5695i32, 2411i32),  // Riga, LV
        (5469i32, 2528i32),  // Vilnius, LT
        (4961i32, 613i32),  // Luxembourg, LU
        (3590i32, 1451i32),  // Valletta, MT
        (5237i32, 490i32),  // Amsterdam, NL
        (5991i32, 1075i32),  // Oslo, NO
        (5223i32, 2101i32),  // Warsaw, PL
        (3872i32, -914i32),  // Lisbon, PT
        (4443i32, 2610i32),  // Bucharest, RO
        (4815i32, 1711i32),  // Bratislava, SK
        (4605i32, 1451i32),  // Ljubljana, SI
        (4042i32, -370i32),  // Madrid, ES
        (5933i32, 1807i32),  // Stockholm, SE
        (4695i32, 745i32),  // Bern, CH
        (3993i32, 3285i32),  // Ankara, TR
        (5151i32, -13i32),  // London, GB
        (5045i32, 3052i32),  // Kyiv, UA
        (4482i32, 2046i32),  // Belgrade, RS
        (4133i32, 1982i32),  // Tirana, AL
        (4385i32, 1842i32),  // Sarajevo, BA
        (4244i32, 1927i32),  // Podgorica, ME
        (4200i32, 2143i32),  // Skopje, MK
        (4700i32, 2886i32),  // Chisinau, MD
        (5390i32, 2757i32),  // Minsk, BY
        (4169i32, 4483i32),  // Tbilisi, GE
        (4041i32, 4987i32),  // Baku, AZ
        (4018i32, 4451i32),  // Yerevan, AM
        (5575i32, 3762i32),  // Moscow, RU
        (5995i32, 3032i32),  // Saint Petersburg, RU
    ]
}

/// More large cities of Europe: latitude and longitude in hundredths of a
/// degree.
pub open spec fn major_cities() -> Seq<(i32, i32)> {
    seq![
        (4814i32, 1158i32),  // Munich, DE
        (5357i32, 1002i32),  // Hamburg, DE
        (5122i32, 678i32),  // Dusseldorf, DE
        (5094i32, 696i32),  // Cologne, DE
        (5011i32, 868i32),  // Frankfurt, DE
        (4878i32, 918i32),  // Stuttgart, DE
        (5134i32, 1238i32),  // Leipzig, DE
        (5103i32, 1373i32),  // Dresden, DE
        (4945i32, 1108i32),  // Nuremberg, DE
        (5308i32, 881i32),  // Bremen, DE
        (5237i32, 973i32),  // Hannover, DE
        (5151i32, 746i32),  // Dortmund, DE
        (4139i32, 216i32),  // Barcelona, ES
        (3947i32, -38i32),  // Valencia, ES
        (3739i32, -599i32),  // Seville, ES
        (4166i32, -88i32),  // Zaragoza, ES
        (4547i32, 919i32),  // Milan, IT
        (4084i32, 1425i32),  // Naples, IT
        (4507i32, 769i32),  // Turin, IT
        (4385i32, 731i32),  // Nice, FR
        (4575i32, 484i32),  // Lyon, FR
        (4330i32, 537i32),  // Marseille, FR
        (4722i32, -155i32),  // Nantes, FR
        (4484i32, -58i32),  // Bordeaux, FR
        (5063i32, 306i32),  // Lille, FR
        (5006i32, 1994i32),  // Krakow, PL
        (5111i32, 1704i32),  // Wroclaw, PL
        (5241i32, 1693i32),  // Poznan, PL
        (5177i32, 1946i32),  // Lodz, PL
        (5435i32, 1865i32),  // Gdansk, PL
        (4999i32, 3623i32),  // Kharkiv, UA
        (4649i32, 3073i32),  // Odessa, UA
        (4846i32, 3504i32),  // Dnipro, UA
        (4101i32, 2897i32),  // Istanbul, TR
        (3842i32, 2714i32),  // Izmir, TR
        (4077i32, 2992i32),  // Bursa, TR
        (3689i32, 3069i32),  // Antalya, TR
        (3700i32, 3532i32),  // Adana, TR
        (5192i32, 448i32),  // Rotterdam, NL
        (5122i32, 440i32),  // Antwerp, BE
        (5586i32, -425i32),  // Glasgow, GB
        (5348i32, -224i32),  // Manchester, GB
        (5249i32, -189i32),  // Birmingham, GB
        (5380i32, -155i32),  // Leeds, GB
        (5595i32, -319i32),  // Edinburgh, GB
        (5146i32, -260i32),  // Bristol, GB
        (4738i32, 854i32),  // Zurich, CH
        (4621i32, 614i32),  // Geneva, CH
        (4707i32, 1543i32),  // Graz, AT
        (4780i32, 1304i32),  // Salzburg, AT
        (5771i32, 1197i32),  // Gothenburg, SE
        (5561i32, 1300i32),  // Malmo, SE
        (6150i32, 2377i32),  // Tampere, FI
        (6501i32, 2547i32),  // Oulu, FI
        (4920i32, 1661i32),  // Brno, CZ
        (4716i32, 2759i32),  // Iasi, RO
        (4677i32, 2359i32),  // Cluj-Napoca, RO
        (4575i32, 2123i32),  // Timisoara, RO
        (4431i32, 2380i32),  // Craiova, RO
        (4321i32, 2792i32),  // Varna, BG
        (4214i32, 2475i32),  // Plovdiv, BG
        (4066i32, 2293i32),  // Thessaloniki, GR
        (3534i32, 2513i32),  // Heraklion, GR
        (4527i32, 1983i32),  // Novi Sad, RS
        (4332i32, 2189i32),  // Nis, RS
        (4750i32, 2162i32),  // Debrecen, HU
        (5489i32, 2390i32),  // Kaunas, LT
        (5838i32, 2673i32),  // Tartu, EE
    ]
}

/// The capitals of Europe: latitude and longitude in hundredths of a degree.
pub fn european_capitals() -> (r: Vec<(i32, i32)>)
    ensures
        r@ == capitals(),
{
    let r: Vec<(i32, i32)> = vec![
        (4821, 1637),  // Vienna, AT
        (5085, 435),  // Brussels, BE
        (4270, 2332),  // Sofia, BG
        (4581, 1598),  // Zagreb, HR
        (3517, 3337),  // Nicosia, CY
        (5008, 1444),  // Prague, CZ
        (5568, 1257),  // Copenhagen, DK
        (5944, 2475),  // Tallinn, EE
        (6017, 2494),  // Helsinki, FI
        (4886, 235),  // Paris, FR
        (5252, 1340),  // Berlin, DE
        (3798, 2373),  // Athens, GR
        (4750, 1904),  // Budapest, HU
        (6414, -2190),  // Reykjavik, IS
        (5333, -625),  // Dublin, IE
        (4190, 1250),  // Rome, IT
        (5695, 2411),  // Riga, LV
        (5469, 2528),  // Vilnius, LT
        (4961, 613),  // Luxembourg, LU
        (3590, 1451),  // Valletta, MT
        (5237, 490),  // Amsterdam, NL
        (5991, 1075),  // Oslo, NO
        (5223, 2101),  // Warsaw, PL
        (3872, -914),  // Lisbon, PT
        (4443, 2610),  // Bucharest, RO
        (4815, 1711),  // Bratislava, SK
        (4605, 1451),  // Ljubljana, SI
        (4042, -370),  // Madrid, ES
        (5933, 1807),  // Stockholm, SE
        (4695, 745),  // Bern, CH
        (3993, 3285),  // Ankara, TR
        (5151, -13),  // London, GB
        (5045, 3052),  // Kyiv, UA
        (4482, 2046),  // Belgrade, RS
        (4133, 1982),  // Tirana, AL
        (4385, 1842),  // Sarajevo, BA
        (4244, 1927),  // Podgorica, ME
        (4200, 2143),  // Skopje, MK
        (4700, 2886),  // Chisinau, MD
        (5390, 2757),  // Minsk, BY
        (4169, 4483),  // Tbilisi, GE
        (4041, 4987),  // Baku, AZ
        (4018, 4451),  // Yerevan, AM
        (5575, 3762),  // Moscow, RU
        (5995, 3032),  // Saint Petersburg, RU
    ];
    assert(r@ =~= capitals());
    r
}

/// More large cities of Europe.
pub fn european_major_cities() -> (r: Vec<(i32, i32)>)
    ensures
        r@ == major_cities(),
{
    let r: Vec<(i32, i32)> = vec![
        (4814, 1158),  // Munich, DE
        (5357, 1002),  // Hamburg, DE
        (5122, 678),  // Dusseldorf, DE
        (5094, 696),  // Cologne, DE
        (5011, 868),  // Frankfurt, DE
        (4878, 918),  // Stuttgart, DE
        (5134, 1238),  // Leipzig, DE
        (5103, 1373),  // Dresden, DE
        (4945, 1108),  // Nuremberg, DE
        (5308, 881),  // Bremen, DE
        (5237, 973),  // Hannover, DE
        (5151, 746),  // Dortmund, DE
        (4139, 216),  // Barcelona, ES
        (3947, -38),  // Valencia, ES
        (3739, -599),  // Seville, ES
        (4166, -88),  // Zaragoza, ES
        (4547, 919),  // Milan, IT
        (4084, 1425),  // Naples, IT
        (4507, 769),  // Turin, IT
        (4385, 731),  // Nice, FR
        (4575, 484),  // Lyon, FR
        (4330, 537),  // Marseille, FR
        (4722, -155),  // Nantes, FR
        (4484, -58),  // Bordeaux, FR
        (5063, 306),  // Lille, FR
        (5006, 1994),  // Krakow, PL
        (5111, 1704),  // Wroclaw, PL
        (5241, 1693),  // Poznan, PL
        (5177, 1946),  // Lodz, PL
        (5435, 1865),  // Gdansk, PL
        (4999, 3623),  // Kharkiv, UA
        (4649, 3073),  // Odessa, UA
        (4846, 3504),  // Dnipro, UA
        (4101, 2897),  // Istanbul, TR
        (3842, 2714),  // Izmir, TR
        (4077, 2992),  // Bursa, TR
        (3689, 3069),  // Antalya, TR
        (3700, 3532),  // Adana, TR
        (5192, 448),  // Rotterdam, NL
        (5122, 440),  // Antwerp, BE
        (5586, -425),  // Glasgow, GB
        (5348, -224),  // Manchester, GB
        (5249, -189),  // Birmingham, GB
        (5380, -155),  // Leeds, GB
        (5595, -319),  // Edinburgh, GB
        (5146, -260),  // Bristol, GB
        (4738, 854),  // Zurich, CH
        (4621, 614),  // Geneva, CH
        (4707, 1543),  // Graz, AT
        (4780, 1304),  // Salzburg, AT
        (5771, 1197),  // Gothenburg, SE
        (5561, 1300),  // Malmo, SE
        (6150, 2377),  // Tampere, FI
        (6501, 2547),  // Oulu, FI
        (4920, 1661),  // Brno, CZ
        (4716, 2759),  // Iasi, RO
        (4677, 2359),  // Cluj-Napoca, RO
        (4575, 2123),  // Timisoara, RO
        (4431, 2380),  // Craiova, RO
        (4321, 2792),  // Varna, BG
        (4214, 2475),  // Plovdiv, BG
        (4066, 2293),  // Thessaloniki, GR
        (3534, 2513),  // Heraklion, GR
        (4527, 1983),  // Novi Sad, RS
        (4332, 2189),  // Nis, RS
        (4750, 2162),  // Debrecen, HU
        (5489, 2390),  // Kaunas, LT
        (5838, 2673),  // Tartu, EE
    ];
    assert(r@ =~= major_cities());
    r
}

/// The names of the capitals, in the order of their places.
pub open spec fn capital_names() -> Seq<Seq<char>> {
    seq![
        "Vienna"@,
        "Brussels"@,
        "Sofia"@,
        "Zagreb"@,
        "Nicosia"@,
        "Prague"@,
        "Copenhagen"@,
        "Tallinn"@,
        "Helsinki"@,
        "Paris"@,
        "Berlin"@,
        "Athens"@,
        "Budapest"@,
        "Reykjavik"@,
        "Dublin"@,
        "Rome"@,
        "Riga"@,
        "Vilnius"@,
        "Luxembourg"@,
        "Valletta"@,
        "Amsterdam"@,
        "Oslo"@,
        "Warsaw"@,
        "Lisbon"@,
        "Bucharest"@,
        "Bratislava"@,
        "Ljubljana"@,
        "Madrid"@,
        "Stockholm"@,
        "Bern"@,
        "Ankara"@,
        "London"@,
        "Kyiv"@,
        "Belgrade"@,
        "Tirana"@,
        "Sarajevo"@,
        "Podgorica"@,
        "Skopje"@,
        "Chisinau"@,
        "Minsk"@,
        "Tbilisi"@,
        "Baku"@,
        "Yerevan"@,
        "Moscow"@,
        "Saint Petersburg"@,
    ]
}

/// The names of the capitals, in the order of their places.
pub fn european_capital_names() -> (r: Vec<&'static str>)
    ensures
        r@.map_values(|s: &'static str| s@) == capital_names(),
{
    let r: Vec<&'static str> = vec![
        "Vienna",
        "Brussels",
        "Sofia",
        "Zagreb",
        "Nicosia",
        "Prague",
        "Copenhagen",
        "Tallinn",
        "Helsinki",
        "Paris",
        "Berlin",
        "Athens",
        "Budapest",
        "Reykjavik",
        "Dublin",
        "Rome",
        "Riga",
        "Vilnius",
        "Luxembourg",
        "Valletta",
        "Amsterdam",
        "Oslo",
        "Warsaw",
        "Lisbon",
        "Bucharest",
        "Bratislava",
        "Ljubljana",
        "Madrid",
        "Stockholm",
        "Bern",
        "Ankara",
        "London",
        "Kyiv",
        "Belgrade",
        "Tirana",
        "Sarajevo",
        "Podgorica",
        "Skopje",
        "Chisinau",
        "Minsk",
        "Tbilisi",
        "Baku",
        "Yerevan",
        "Moscow",
        "Saint Petersburg",
    ];
    assert(r@.map_values(|s: &'static str| s@) =~= capital_names());
    r
}

/// Every capital has a name.
pub proof fn every_capital_is_named()
    ensures
        capital_names().len() == capitals().len(),
{
}

/// The capitals lie in and around Europe: the latitude comes first, and the
/// longitude second.
pub proof fn capitals_lie_around_europe(i: int)
    requires
        0 <= i < capitals().len(),
    ensures
        3300 <= capitals()[i].0 <= 7200,
        -2500 <= capitals()[i].1 <= 5500,
{
}

/// The nearest cell of twelve degrees for a coordinate in hundredths of a
/// degree, halves away from zero.
pub open spec fn snapped(v: int) -> int {
    if v >= 0 {
        (v + 600) / 1200
    } else {
        -((600 - v) / 1200)
    }
}

fn snap(v: i32) -> (r: i64)
    ensures
        r == snapped(v as int),
{
    let w: i64 = v as i64;
    if w >= 0 {
        (w + 600) / 1200
    } else {
        -((600 - w) / 1200)
    }
}

/// The cell of a place in hundredths of a degree.
pub open spec fn cell_of_place(p: (i32, i32)) -> GridCell {
    (snapped(p.0 as int) as i64, snapped(p.1 as int) as i64)
}

/// The cell of a place in hundredths of a degree.
pub fn city_cell(p: (i32, i32)) -> (c: GridCell)
    ensures
        c == cell_of_place(p),
{
    (snap(p.0), snap(p.1))
}

/// The cells of places.
pub fn city_cells(places: &Vec<(i32, i32)>) -> (r: Vec<GridCell>)
    ensures
        r@ == places@.map_values(|p: (i32, i32)| cell_of_place(p)),
{
    let ghost cells = places@.map_values(|p: (i32, i32)| cell_of_place(p));
    let mut r: Vec<GridCell> = Vec::new();
    let mut i: usize = 0;
    while i < places.len()
        invariant
            i <= places.len(),
            cells == places@.map_values(|p: (i32, i32)| cell_of_place(p)),
            r@ == cells.take(i as int),
        decreases places.len() - i,
    {
        r.push(city_cell(places[i]));
        assert(r@ =~= cells.take(i + 1));
        i = i + 1;
    }
    assert(cells.take(i as int) =~= cells);
    r
}

/// A place lies within half a side of the middle of its cell.
pub proof fn cities_lie_in_their_cells(p: (i32, i32))
    ensures
        -600 <= p.0 - 1200 * cell_of_place(p).0 <= 600,
        -600 <= p.1 - 1200 * cell_of_place(p).1 <= 600,
{
}

} // verus!
