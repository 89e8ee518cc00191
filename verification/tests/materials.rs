use vivotk::abr::quetramulti::QuetraMulti;
use vivotk::color;
use vivotk::formats::metadata::MetaData;
use vivotk::formats::triangle_face::TriangleFace;
use vivotk::formats::{PointCloud, PointCloudSegment};
use vivotk::convert::ConvertOutputFormat;
use vivotk::io::reader::{
    expand_directory, filter_for_ply_files, has_extension, is_ply_file, ply_output_name, DirEntryInfo,
    InputPath,
};
use vivotk::io::writer::{ply_encoding, PlyEncoding};
use vivotk::materials::color::{Color, PointColor};
use vivotk::materials::ply_dir::PlyDir;
use vivotk::player::{infer_format, infer_play_format, is_remote_src};
use vivotk::utils::SimpleRunningAverage;

#[test]
fn point_colour_channels() {
    let black = PointColor::new_default();
    assert_eq!(black.to_array(), [0, 0, 0]);
    let c = PointColor::new(10, 20, 30);
    assert_eq!((c.red, c.green, c.blue), (10, 20, 30));
    assert_eq!(PointColor::new_with_array([10, 20, 30]), c);
    assert_eq!(PointColor::new_with_array(c.to_array()), c);
    let colours = Color::new(vec![black, c]);
    assert_eq!(colours.get_borrow_data(), &vec![black, c]);
}

#[test]
fn plain_colour_collection() {
    let black = color::PointColor::new_default();
    let red = color::PointColor::new(255, 0, 0);
    assert_eq!((black.red, black.green, black.blue), (0, 0, 0));
    let colours = color::Color::new(vec![red, black]);
    assert_eq!(colours.data(), &vec![red, black]);
}

#[test]
fn default_mesh_joins_points_three_by_three() {
    let mesh = TriangleFace::get_default_mesh(9);
    assert_eq!(mesh.len(), 3);
    assert_eq!(mesh[0], TriangleFace { v1: 0, v2: 1, v3: 2 });
    assert_eq!(mesh[2], TriangleFace { v1: 6, v2: 7, v3: 8 });
    assert!(TriangleFace::get_default_mesh(0).is_empty());
}

#[test]
fn quetra_multi_settings() {
    let q = QuetraMulti::new(4);
    assert_eq!(q.k, 4);
    assert_eq!(q.segment_frequency, 1);
    assert_eq!(q.segment_size, 1);
}

#[test]
fn running_average_of_last_values() {
    let mut avg: SimpleRunningAverage<3> = SimpleRunningAverage::new();
    assert_eq!(avg.get(), 0);
    avg.add(3);
    assert_eq!(avg.get(), 3);
    avg.add(4);
    assert_eq!(avg.get(), 3);
    avg.add(8);
    assert_eq!(avg.get(), 5);
    // the oldest value leaves the window
    avg.add(9);
    assert_eq!(avg.get(), 7);
    // rounded towards zero
    let mut neg: SimpleRunningAverage<2> = SimpleRunningAverage::new();
    neg.add(-3);
    neg.add(-4);
    assert_eq!(neg.get(), -3);
}

#[test]
fn ply_directory_listing() {
    let dir = PlyDir::new(
        "data/longdress".to_string(),
        vec!["data/longdress/a.ply".to_string(), "data/longdress/b.ply".to_string()],
    );
    assert_eq!(dir.count(), 2);
    assert_eq!(dir.get_title(), Some("longdress"));
    assert_eq!(dir.try_get_title(), Some("longdress"));
    assert_eq!(dir.get_paths()[1], "data/longdress/b.ply");
    let trailing = PlyDir::new("data/longdress//.".to_string(), vec![]);
    assert_eq!(trailing.try_get_title(), Some("longdress"));
    let root = PlyDir::new("/".to_string(), vec![]);
    assert_eq!(root.count(), 0);
    assert_eq!(root.try_get_title(), None);
}

#[test]
fn ply_directory_counts_ply_files_only() {
    let entries: Vec<String> = vec!["d/a.ply", "d/b.txt", "d/c.ply", "d/sub"].into_iter().map(String::from).collect();
    let dir = PlyDir::new("d".to_string(), entries);
    assert_eq!(dir.count(), 2);
    assert_eq!(dir.get_paths().len(), 4);
    let one = PlyDir::new("d".to_string(), vec!["d/notes.txt".to_string()]);
    assert_eq!(one.count(), 0);
}

#[test]
fn sorted_paths_by_characters() {
    let v = |xs: &[&str]| xs.iter().map(|x| x.to_string()).collect::<Vec<String>>();
    let sorted = |xs: &[&str]| PlyDir::new("d".to_string(), v(xs)).get_paths();
    assert_eq!(sorted(&[]), v(&[]));
    assert_eq!(sorted(&["a"]), v(&["a"]));
    assert_eq!(sorted(&["b", "a"]), v(&["a", "b"]));
    assert_eq!(sorted(&["ab", "a"]), v(&["a", "ab"]));
    assert_eq!(sorted(&["b", "ab", "a", "a"]), v(&["a", "a", "ab", "b"]));
    assert_eq!(sorted(&["d/a/", "d/a.ply", "d/a-b"]), v(&["d/a-b", "d/a.ply", "d/a/"]));
    let dir = PlyDir::new("d".to_string(), v(&["d/c.ply", "d/notes.txt", "d/a.ply"]));
    assert_eq!(dir.count(), 2);
    assert_eq!(dir.get_paths(), v(&["d/a.ply", "d/c.ply", "d/notes.txt"]));
}

#[test]
fn ply_files_by_extension() {
    assert!(is_ply_file("frames/longdress_vox10_1051.ply"));
    assert!(!is_ply_file("frames/longdress_vox10_1051.pcd"));
    assert!(!is_ply_file("frames/.ply"));
    assert!(!is_ply_file("frames/ply"));
    assert!(!is_ply_file("frames/a.PLY"));
    assert!(has_extension("a/b.tar.gz", &vec!['g', 'z']));
    assert!(!has_extension("a/b.tar.gz", &vec!['t', 'a', 'r']));
    assert!(!has_extension("..", &vec!['p', 'l', 'y']));
    // the final component: trailing separators and `.` do not count, `..` has none
    assert!(is_ply_file("frames/x.ply/"));
    assert!(is_ply_file("frames/x.ply/.//"));
    assert!(!is_ply_file("frames/x.ply/.."));
    assert!(is_ply_file("./x.ply"));
    assert!(!is_ply_file("/"));
    assert!(!is_ply_file(""));
}

#[test]
fn expand_directory_keeps_ply_files_in_order() {
    let entry = |p: &str, f: bool| DirEntryInfo { path: p.to_string(), is_file: f };
    let entries = vec![
        entry("d/b.ply", true),
        entry("d/sub.ply", false),
        entry("d/c.pcd", true),
        entry("d/a.ply", true),
    ];
    assert_eq!(expand_directory(&entries), vec!["d/b.ply".to_string(), "d/a.ply".to_string()]);
    assert!(expand_directory(&vec![]).is_empty());
}

#[test]
fn remote_sources() {
    assert!(is_remote_src("http://localhost:3000/manifest.mpd"));
    assert!(is_remote_src("https://www.example.com/a.mpd"));
    assert!(!is_remote_src("./frames"));
    assert!(!is_remote_src("http:/x"));
    assert!(!is_remote_src("ftp://x"));
}

#[test]
fn format_named_or_counted() {
    let none: Vec<String> = vec![];
    assert_eq!(infer_format("ply", &none), "ply");
    assert_eq!(infer_format("http", &none), "http");
    let entries: Vec<String> = vec!["d/1.pcd", "d/2.pcd", "d/3.ply", "d/4.bin", "d/x.txt"]
        .into_iter()
        .map(String::from)
        .collect();
    assert_eq!(infer_format("d", &entries), "pcd");
    // on a tie the later of pcd, ply, bin wins
    let tie: Vec<String> = vec!["d/1.pcd", "d/3.ply"].into_iter().map(String::from).collect();
    assert_eq!(infer_format("d", &tie), "ply");
    assert_eq!(infer_format("d", &none), "bin");
    assert_eq!(infer_play_format(&entries), "pcd");
    assert_eq!(infer_play_format(&tie), "ply");
}

#[test]
fn output_formats_by_name() {
    assert_eq!(ConvertOutputFormat::from_str("pcd"), Ok(ConvertOutputFormat::PCD));
    assert_eq!(ConvertOutputFormat::from_str("mp4"), Ok(ConvertOutputFormat::MP4));
    assert_eq!(ConvertOutputFormat::PNG.to_string(), "png");
    assert_eq!(ConvertOutputFormat::from_str("PLY"), Err("PLY is not a valid output format".to_string()));
    assert_eq!(ConvertOutputFormat::from_str(""), Err(" is not a valid output format".to_string()));
    for f in [ConvertOutputFormat::PLY, ConvertOutputFormat::PCD, ConvertOutputFormat::PNG, ConvertOutputFormat::MP4] {
        assert_eq!(ConvertOutputFormat::from_str(&f.to_string()), Ok(f));
    }
}

#[test]
fn ply_files_among_inputs() {
    let entry = |p: &str, f: bool| DirEntryInfo { path: p.to_string(), is_file: f };
    let inputs = vec![
        InputPath { path: "one.ply".to_string(), listing: None },
        InputPath { path: "notes.txt".to_string(), listing: None },
        InputPath {
            path: "dir".to_string(),
            listing: Some(vec![entry("dir/a.ply", true), entry("dir/b.pcd", true), entry("dir/c.ply", true)]),
        },
        InputPath { path: "two.ply".to_string(), listing: None },
    ];
    assert_eq!(
        filter_for_ply_files(&inputs),
        vec!["one.ply", "dir/a.ply", "dir/c.ply", "two.ply"].into_iter().map(String::from).collect::<Vec<_>>()
    );
}

#[test]
fn point_cloud_segments_and_counts() {
    let seg = |pts: Vec<u32>, b: char| PointCloudSegment { points: pts, bounds: b };
    let mut pc = PointCloud::new_with_segments(vec![seg(vec![1, 2], 'a'), seg(vec![], 'b'), seg(vec![3], 'c')]);
    assert_eq!(pc.points, vec![1, 2, 3]);
    assert_eq!(pc.number_of_points, 3);
    assert!(pc.is_partitioned());
    pc.add_points(vec![7, 8], 1);
    assert_eq!(pc.number_of_points, 5);
    assert_eq!(pc.points, vec![1, 2, 3, 7, 8]);
    let segs = pc.segments.as_ref().unwrap();
    assert_eq!(segs[1].points, vec![7, 8]);
    assert_eq!(segs[1].bounds, 'b');
    assert_eq!(segs[0].points, vec![1, 2]);
    let mut plain: PointCloud<u32, char> = PointCloud::new(2, vec![5, 6]);
    assert!(!plain.is_partitioned());
    plain.add_points(vec![9], 0);
    assert_eq!(plain.points, vec![5, 6]);
    plain.combine(&pc);
    assert_eq!(plain.number_of_points, 7);
    assert_eq!(plain.points, vec![5, 6, 1, 2, 3, 7, 8]);
}

#[test]
fn metadata_records_partitions() {
    let mut m: MetaData<char> = MetaData::default();
    assert_eq!(m.partitions, (0, 0, 0));
    m.next('a', vec![1, 2], vec![3]);
    m.next('b', vec![], vec![4]);
    assert_eq!(m.bounds, vec!['a', 'b']);
    assert_eq!(m.base_point_num, vec![vec![1, 2], vec![]]);
    assert_eq!(m.additional_point_num, vec![vec![3], vec![4]]);
    let n = MetaData::new(vec!['z'], vec![vec![1]], vec![vec![0]], (2, 1, 1));
    assert_eq!(n.partitions, (2, 1, 1));
    assert_eq!(n.bounds, vec!['z']);
}

#[test]
fn ply_encodings_by_form() {
    assert_eq!(ply_encoding(None), Some(PlyEncoding::Ascii));
    assert_eq!(ply_encoding(Some("ascii")), Some(PlyEncoding::Ascii));
    assert_eq!(ply_encoding(Some("binary")), Some(PlyEncoding::BinaryLittleEndian));
    assert_eq!(ply_encoding(Some("Binary")), None);
    assert_eq!(ply_encoding(Some("")), None);
}

#[test]
fn converted_file_takes_the_ply_extension() {
    let name = |p: &str| ply_output_name(p);
    assert_eq!(name("frames/longdress_0001.pcd"), Some("longdress_0001.ply".to_string()));
    assert_eq!(name("frames/points"), Some("points.ply".to_string()));
    assert_eq!(name("x.tar.gz"), Some("x.tar.ply".to_string()));
    assert_eq!(name("d/.hidden"), Some(".hidden.ply".to_string()));
    assert_eq!(name("d/a."), Some("a.ply".to_string()));
    assert_eq!(name("d/a.ply/"), Some("a.ply".to_string()));
    assert_eq!(name("/"), None);
    assert_eq!(name("d/.."), None);
}
