use nester::file_obtainer::{ConfigurationBuilder, Entry, Step, Walk};
use nester::offset_calculator::get_code_offsets;
use nester::plotter::{
    ConfigError, Opacity, OpacityComputer, PlotterBuilder, ResultDimension, Rgb, SCALE,
    START_OPACITY,
};

fn check_gradient(n: usize, start: u32) {
    let computer = OpacityComputer::new(start, n);
    let values: Vec<Opacity> = (0..n).map(|i| computer.opacity_at(i)).collect();
    for w in values.windows(2) {
        assert!(w[0].num * w[1].den < w[1].num * w[0].den);
    }
    let first = values[0];
    assert!(first.num * SCALE as u128 >= start as u128 * first.den);
    let last = values[n - 1];
    assert!(last.num <= last.den);
}

#[test]
fn opacity_gradient_increases_within_bounds() {
    for n in [1usize, 2, 100] {
        check_gradient(n, START_OPACITY);
        check_gradient(n, 0);
        check_gradient(n, 999);
    }
}

#[test]
fn opacity_follows_linear_law() {
    let computer = OpacityComputer::new(200, 4);
    assert_eq!(computer.opacity_at(0), Opacity { num: 800, den: 4000 });
    assert_eq!(computer.opacity_at(2), Opacity { num: 2400, den: 4000 });
    assert_eq!(computer.opacity_at(3), Opacity { num: 3200, den: 4000 });
}

#[test]
fn full_start_opacity_stays_at_one() {
    let computer = OpacityComputer::new(1000, 3);
    assert_eq!(computer.opacity_at(2), Opacity { num: 3000, den: 3000 });
}

#[test]
fn builder_defaults() {
    let p = PlotterBuilder::new("./out.png".to_string()).build().unwrap();
    assert_eq!(p.result_location(), "./out.png");
    assert_eq!(p.dimension(), ResultDimension(800, 600));
    assert_eq!(p.smoothing(), 1000);
    assert_eq!(p.start_opacity(), 200);
    assert_eq!(p.color(), Rgb(50, 50, 200));
}

#[test]
fn builder_settings() {
    let p = PlotterBuilder::new("o.png".to_string())
        .with_dimension(ResultDimension(1024, 768))
        .with_smoothing(1300)
        .with_start_opacity(1000)
        .with_color(Rgb(1, 2, 3))
        .build()
        .unwrap();
    assert_eq!(p.dimension(), ResultDimension(1024, 768));
    assert_eq!(p.smoothing(), 1300);
    assert_eq!(p.start_opacity(), 1000);
    assert_eq!(p.color(), Rgb(1, 2, 3));
}

#[test]
fn start_opacity_above_one_is_refused() {
    let r = PlotterBuilder::new("o.png".to_string()).with_start_opacity(1001).build();
    assert_eq!(r.err(), Some(ConfigError::StartOpacityOutOfRange(1001)));
}

#[test]
fn empty_collection_gives_no_traces() {
    let p = PlotterBuilder::new("o.png".to_string()).build().unwrap();
    assert!(p.traces(&vec![]).is_empty());
    assert_eq!(p.dimension(), ResultDimension(800, 600));
}

#[test]
fn trace_plots_offsets_against_line_index() {
    let p = PlotterBuilder::new("o.png".to_string()).build().unwrap();
    let t = p.get_trace(&vec![3, 0, 7], Opacity { num: 1, den: 2 });
    assert_eq!(t.x, vec![0, 1, 2]);
    assert_eq!(t.y, vec![3, 0, 7]);
    assert_eq!(t.opacity, Opacity { num: 1, den: 2 });
    assert_eq!(t.color, Rgb(50, 50, 200));
    assert_eq!(t.smoothing, 1000);
}

#[test]
fn traces_follow_collection_order_and_gradient() {
    let p = PlotterBuilder::new("o.png".to_string()).build().unwrap();
    let ts = p.traces(&vec![vec![1], vec![2, 2]]);
    assert_eq!(ts.len(), 2);
    assert_eq!(ts[0].y, vec![1]);
    assert_eq!(ts[1].x, vec![0, 1]);
    assert_eq!(ts[0].opacity, Opacity { num: 400, den: 2000 });
    assert_eq!(ts[1].opacity, Opacity { num: 1200, den: 2000 });
}

#[test]
fn end_to_end_rejecting_txt() {
    let config = ConfigurationBuilder::new("t".to_string())
        .add_file_endings(vec![".txt".to_string()])
        .build();
    let mut walk = Walk::new(config);
    let listing = vec![
        Entry { path: "t/a.rs".to_string(), name: "a.rs".to_string(), is_dir: false },
        Entry { path: "t/b.txt".to_string(), name: "b.txt".to_string(), is_dir: false },
    ];
    let files = match walk.on_listing(Some(listing)) {
        Step::Done(f) => f,
        other => panic!("unexpected step {:?}", other),
    };
    assert_eq!(files, vec!["t/a.rs".to_string()]);
    let contents: Vec<String> = files
        .iter()
        .map(|f| match f.as_str() {
            "t/a.rs" => "fn main() {\n    run();".to_string(),
            _ => "  skipped".to_string(),
        })
        .collect();
    let offsets = get_code_offsets(&contents).unwrap();
    assert_eq!(offsets, vec![vec![0, 4]]);
    let plotter = PlotterBuilder::new("out.png".to_string()).build().unwrap();
    let traces = plotter.traces(&offsets);
    assert_eq!(traces.len(), 1);
    let o = traces[0].opacity;
    assert_eq!(o.num * SCALE as u128, START_OPACITY as u128 * o.den);
}
