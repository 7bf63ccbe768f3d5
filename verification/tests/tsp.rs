use eas::fitness::tsp::{parse_tour, TSP};
use eas::fitness::FitnessFunction;
use eas::search_space::Permutation;

const BERLIN52: &str = "NAME: berlin52\n\
TYPE: TSP\n\
COMMENT: 52 locations in Berlin (Groetschel)\n\
DIMENSION: 52\n\
EDGE_WEIGHT_TYPE: EUC_2D\n\
NODE_COORD_SECTION\n\
1 565.0 575.0\n\
2 25.0 185.0\n\
3 345.0 750.0\n\
4 945.0 685.0\n\
5 845.0 655.0\n\
6 880.0 660.0\n\
7 25.0 230.0\n\
8 525.0 1000.0\n\
9 580.0 1175.0\n\
10 650.0 1130.0\n\
11 1605.0 620.0\n\
12 1220.0 580.0\n\
13 1465.0 200.0\n\
14 1530.0 5.0\n\
15 845.0 680.0\n\
16 725.0 370.0\n\
17 145.0 665.0\n\
18 415.0 635.0\n\
19 510.0 875.0\n\
20 560.0 365.0\n\
21 300.0 465.0\n\
22 520.0 585.0\n\
23 480.0 415.0\n\
24 835.0 625.0\n\
25 975.0 580.0\n\
26 1215.0 245.0\n\
27 1320.0 315.0\n\
28 1250.0 400.0\n\
29 660.0 180.0\n\
30 410.0 250.0\n\
31 420.0 555.0\n\
32 575.0 665.0\n\
33 1150.0 1160.0\n\
34 700.0 580.0\n\
35 685.0 595.0\n\
36 685.0 610.0\n\
37 770.0 610.0\n\
38 795.0 645.0\n\
39 720.0 635.0\n\
40 760.0 650.0\n\
41 475.0 960.0\n\
42 95.0 260.0\n\
43 875.0 920.0\n\
44 700.0 500.0\n\
45 555.0 815.0\n\
46 830.0 485.0\n\
47 1170.0 65.0\n\
48 830.0 610.0\n\
49 605.0 625.0\n\
50 595.0 360.0\n\
51 1340.0 725.0\n\
52 1740.0 245.0\n\
EOF\n\
";

const BERLIN52_OPT_TOUR: &str = "NAME : berlin52.opt.tour\n\
TYPE : TOUR\n\
DIMENSION : 52\n\
TOUR_SECTION\n\
1\n\
49\n\
32\n\
45\n\
19\n\
41\n\
8\n\
9\n\
10\n\
43\n\
33\n\
51\n\
11\n\
52\n\
14\n\
13\n\
47\n\
26\n\
27\n\
28\n\
12\n\
25\n\
4\n\
6\n\
15\n\
5\n\
24\n\
48\n\
38\n\
37\n\
40\n\
39\n\
36\n\
35\n\
34\n\
44\n\
46\n\
16\n\
29\n\
50\n\
20\n\
23\n\
30\n\
2\n\
7\n\
42\n\
21\n\
17\n\
3\n\
18\n\
31\n\
22\n\
-1\n\
EOF\n\
";

const BIER127: &str = "NAME : bier127
COMMENT : 127 Biergaerten in Augsburg (Juenger/Reinelt)
TYPE : TSP
DIMENSION : 127
EDGE_WEIGHT_TYPE : EUC_2D
NODE_COORD_SECTION
   1   9860  14152
   2   9396  14616
   3  11252  14848
   4  11020  13456
   5   9512  15776
   6  10788  13804
   7  10208  14384
   8  11600  13456
   9  11252  14036
  10  10672  15080
  11  11136  14152
  12   9860  13108
  13  10092  14964
  14   9512  13340
  15  10556  13688
  16   9628  14036
  17  10904  13108
  18  11368  12644
  19  11252  13340
  20  10672  13340
  21  11020  13108
  22  11020  13340
  23  11136  13572
  24  11020  13688
  25   8468  11136
  26   8932  12064
  27   9512  12412
  28   7772  11020
  29   8352  10672
  30   9164  12876
  31   9744  12528
  32   8352  10324
  33   8236  11020
  34   8468  12876
  35   8700  14036
  36   8932  13688
  37   9048  13804
  38   8468  12296
  39   8352  12644
  40   8236  13572
  41   9164  13340
  42   8004  12760
  43   8584  13108
  44   7772  14732
  45   7540  15080
  46   7424  17516
  47   8352  17052
  48   7540  16820
  49   7888  17168
  50   9744  15196
  51   9164  14964
  52   9744  16240
  53   7888  16936
  54   8236  15428
  55   9512  17400
  56   9164  16008
  57   8700  15312
  58  11716  16008
  59  12992  14964
  60  12412  14964
  61  12296  15312
  62  12528  15196
  63  15312   6612
  64  11716  16124
  65  11600  19720
  66  10324  17516
  67  12412  13340
  68  12876  12180
  69  13688  10904
  70  13688  11716
  71  13688  12528
  72  11484  13224
  73  12296  12760
  74  12064  12528
  75  12644  10556
  76  11832  11252
  77  11368  12296
  78  11136  11020
  79  10556  11948
  80  10324  11716
  81  11484   9512
  82  11484   7540
  83  11020   7424
  84  11484   9744
  85  16936  12180
  86  17052  12064
  87  16936  11832
  88  17052  11600
  89  13804  18792
  90  12064  14964
  91  12180  15544
  92  14152  18908
  93   5104  14616
  94   6496  17168
  95   5684  13224
  96  15660  10788
  97   5336  10324
  98    812   6264
  99  14384  20184
 100  11252  15776
 101   9744   3132
 102  10904   3480
 103   7308  14848
 104  16472  16472
 105  10440  14036
 106  10672  13804
 107   1160  18560
 108  10788  13572
 109  15660  11368
 110  15544  12760
 111   5336  18908
 112   6264  19140
 113  11832  17516
 114  10672  14152
 115  10208  15196
 116  12180  14848
 117  11020  10208
 118   7656  17052
 119  16240   8352
 120  10440  14732
 121   9164  15544
 122   8004  11020
 123   5684  11948
 124   9512  16472
 125  13688  17516
 126  11484   8468
 127   3248  14152
EOF";

// Test being able to parse the berlin52 instance provided from TSPLIB
#[test]
fn test_parse_berlin52() {
    let berlin52 = BERLIN52;
    let tsp = TSP::from_euc2d(&berlin52);
    assert!(tsp.is_some());
}

#[test]
fn tsp_test_parse_berlin52() {
    let berlin52 = BERLIN52;
    let tsp = TSP::from_euc2d(&berlin52);
    assert!(tsp.is_some());
}

#[test]
fn fitness_test_parse_berlin52() {
    let berlin52 = BERLIN52;
    let tsp = TSP::from_euc2d(&berlin52);
    assert!(tsp.is_some());
}

// Test veryfing the fitness of the optimal tour of berlin52 provided by TSPLIB
#[test]
fn test_berlin52_optimal_tour() {
    let tsp = TSP::from_euc2d(BERLIN52).unwrap();
    let optimal_tour = parse_tour(BERLIN52_OPT_TOUR).unwrap();
    let optimal_permutation = Permutation::new(optimal_tour);

    let optimal_fitness = tsp.evaluate(&optimal_permutation) as f64;
    assert_eq!(optimal_fitness, 7542.0);
}

#[test]
fn tsp_test_berlin52_optimal_tour() {
    let tsp = TSP::from_euc2d(BERLIN52).unwrap();
    let optimal_tour = parse_tour(BERLIN52_OPT_TOUR).unwrap();
    let optimal_permutation = Permutation::new(optimal_tour);

    let optimal_fitness = tsp.evaluate(&optimal_permutation) as f64;
    assert_eq!(optimal_fitness, 7542.0);
}

#[test]
fn berlin52_has_52_cities() {
    let tsp = TSP::from_euc2d(BERLIN52).unwrap();
    assert_eq!(tsp.num_cities(), 52);
    assert_eq!(tsp.num_vertices(), 52);
    let d = tsp.distances();
    assert_eq!(d.len(), 52);
    assert_eq!(d[0][0], 0);
    // (565, 575) to (25, 185): 666.1.. rounds to 666
    assert_eq!(d[0][1], 666);
    assert_eq!(d[1][0], 666);
}

#[test]
fn berlin52_tour_is_a_permutation() {
    let optimal_tour = parse_tour(BERLIN52_OPT_TOUR).unwrap();
    assert_eq!(optimal_tour.len(), 52);
    assert_eq!(optimal_tour[0], 0);
    assert_eq!(optimal_tour[1], 48);
    assert!(Permutation::new(optimal_tour).is_valid());
}

#[test]
fn tsp_is_minimizing() {
    let tsp = TSP::new(vec![vec![0, 1], vec![1, 0]]);
    assert!(!tsp.is_maximizing());
}

#[test]
fn tour_length_counts_the_closing_edge() {
    let tsp = TSP::new(vec![vec![0, 1, 10], vec![100, 0, 2], vec![4, 1000, 0]]);
    assert_eq!(tsp.evaluate(&Permutation::new(vec![0, 1, 2])), 1 + 2 + 4);
    assert_eq!(tsp.evaluate(&Permutation::new(vec![2, 1, 0])), 1000 + 100 + 10);
}

#[test]
fn tour_of_one_city_is_its_loop() {
    let tsp = TSP::new(vec![vec![7]]);
    assert_eq!(tsp.evaluate(&Permutation::new(vec![0])), 7);
}

#[test]
fn distances_round_to_the_nearest_integer() {
    let tsp = TSP::from_euc2d("NODE_COORD_SECTION\n1 0 0\n2 1 1\n3 0.5 0\n4 0 2.4999\n5 -3 -4\nEOF").unwrap();
    let d = tsp.distances();
    // sqrt(2) = 1.41
    assert_eq!(d[0][1], 1);
    // exactly one half goes up
    assert_eq!(d[0][2], 1);
    assert_eq!(d[0][3], 2);
    assert_eq!(d[0][4], 5);
    // (1, 1) to (-3, -4): sqrt(41) = 6.40
    assert_eq!(d[1][4], 6);
    assert_eq!(d[4][1], 6);
}

#[test]
fn missing_header_is_rejected() {
    assert!(TSP::from_euc2d("1 0 0\n2 1 1\nEOF").is_none());
}

#[test]
fn missing_eof_is_rejected() {
    assert!(TSP::from_euc2d("NODE_COORD_SECTION\n1 0 0\n2 1 1\n").is_none());
}

#[test]
fn short_record_is_rejected() {
    assert!(TSP::from_euc2d("NODE_COORD_SECTION\n1 0 0\n2 1\nEOF").is_none());
}

#[test]
fn blank_line_is_rejected() {
    assert!(TSP::from_euc2d("NODE_COORD_SECTION\n1 0 0\n\n2 1 1\nEOF").is_none());
}

#[test]
fn non_numeric_field_is_rejected() {
    assert!(TSP::from_euc2d("NODE_COORD_SECTION\n1 0 0\n2 x 1\nEOF").is_none());
    assert!(TSP::from_euc2d("NODE_COORD_SECTION\na 0 0\n2 1 1\nEOF").is_none());
    assert!(TSP::from_euc2d("NODE_COORD_SECTION\n1 0 0\n2 1 1.2.3\nEOF").is_none());
    assert!(TSP::from_euc2d("NODE_COORD_SECTION\n1 0 0\n2 1 -\nEOF").is_none());
}

#[test]
fn empty_section_gives_an_instance_without_cities() {
    let tsp = TSP::from_euc2d("NODE_COORD_SECTION\n\nEOF").unwrap();
    assert_eq!(tsp.num_cities(), 0);
    assert_eq!(tsp.evaluate(&Permutation::new(vec![])), 0);
}

#[test]
fn records_may_carry_blanks_and_signs() {
    let tsp = TSP::from_euc2d("junk\nNODE_COORD_SECTION\n  1\t+3.0   4.\r\n+2 0 .0 trailing\nEOF and more").unwrap();
    assert_eq!(tsp.num_cities(), 2);
    assert_eq!(tsp.distances()[0][1], 5);
}

#[test]
fn tour_without_its_end_mark_is_rejected() {
    assert!(parse_tour("TOUR_SECTION\n1\n2\nEOF").is_none());
    assert!(parse_tour("1\n2\n-1\nEOF").is_none());
}

#[test]
fn tour_entries_count_from_one() {
    assert_eq!(parse_tour("TOUR_SECTION\n2\n1\n3\n-1\nEOF"), Some(vec![1, 0, 2]));
    assert!(parse_tour("TOUR_SECTION\n0\n1\n-1\nEOF").is_none());
    assert!(parse_tour("TOUR_SECTION\n1 2\n-1\nEOF").is_none());
    assert!(parse_tour("TOUR_SECTION\n1\nx\n-1\nEOF").is_none());
}

#[test]
fn coordinates_may_carry_an_exponent() {
    let tsp = TSP::from_euc2d("NODE_COORD_SECTION\n1 0.00000e+00 0.00000e+00\n2 3.00000e+02 4.00000e+02\nEOF\n").unwrap();
    assert_eq!(tsp.distances()[0][1], 500);
    assert_eq!(tsp.distances()[1][0], 500);
}

#[test]
fn every_decimal_coordinate_is_read() {
    let tsp = TSP::from_euc2d("NODE_COORD_SECTION\n1 0.1234567 0\nEOF\n").unwrap();
    assert_eq!(tsp.num_cities(), 1);
    assert_eq!(tsp.distances()[0][0], 0);
    let tsp = TSP::from_euc2d("NODE_COORD_SECTION\n1 0.1234567 0\n2 3.1234567 4.0000001\n3 1e-7 1e12\n4 0 -1e300\nEOF\n").unwrap();
    assert_eq!(tsp.num_cities(), 4);
    let d = tsp.distances();
    assert_eq!(d[0][1], 5);
    assert_eq!(d[1][0], 5);
    // a coordinate of a million millions or more counts as just below that
    assert_eq!(d[0][2], 1_000_000_000_000);
    assert_eq!(d[2][3], 2_000_000_000_000);
}

#[test]
fn distances_are_symmetric_with_a_zero_diagonal() {
    let tsp = TSP::from_euc2d(BERLIN52).unwrap();
    let d = tsp.distances();
    for i in 0..52 {
        assert_eq!(d[i][i], 0);
        for j in 0..52 {
            assert_eq!(d[i][j], d[j][i]);
        }
    }
}

// Test being able to parse the bier127 instance provided from TSPLIB
#[test]
fn test_parse_bier127() {
    let berlin52 = BIER127;
    let tsp = TSP::from_euc2d(&berlin52);
    assert!(tsp.is_some());
}

// Test veryfing the fitness of the optimal tour of bier127 found during testing
#[test]
fn test_bier127_optimal_tour() {
    let tsp = TSP::from_euc2d(BIER127).unwrap();
    let optimal_tour = vec![
        48, 52, 47, 117, 45, 93, 111, 110, 106, 126, 92, 94, 122, 96, 97, 31, 28, 27, 121, 32,
        24, 25, 37, 38, 41, 33, 42, 39, 34, 36, 35, 40, 13, 11, 29, 26, 30, 79, 78, 76, 17, 20,
        16, 19, 107, 14, 105, 5, 113, 104, 6, 0, 15, 1, 50, 43, 102, 44, 53, 56, 120, 55, 123,
        51, 4, 49, 114, 12, 119, 9, 99, 63, 57, 90, 60, 61, 58, 59, 115, 89, 2, 10, 8, 23, 22,
        3, 21, 18, 71, 7, 66, 72, 73, 67, 70, 69, 68, 74, 75, 77, 116, 83, 80, 125, 81, 82,
        100, 101, 62, 118, 95, 108, 87, 86, 85, 84, 109, 103, 124, 88, 91, 98, 64, 112, 65, 54,
        46,
    ];
    let optimal_permutation = Permutation::new(optimal_tour);

    let optimal_fitness = tsp.evaluate(&optimal_permutation);
    assert_eq!(optimal_fitness, 118282);
}

#[test]
fn bier127_has_127_cities() {
    let tsp = TSP::from_euc2d(BIER127).unwrap();
    assert_eq!(tsp.num_vertices(), 127);
    assert_eq!(tsp.distances().len(), 127);
}
