use recurrent_visualizer::app::{App, RING_SIZE};
use recurrent_visualizer::arith::Op;
use recurrent_visualizer::audio::{
    choose_device, feed, list_inputs, name_matches, parse_channels, plan_stream, ports, process,
    DeviceChoice, InputDevice, StartError,
};
use recurrent_visualizer::buffer::FilteredBuffer;
use recurrent_visualizer::plot::Plot;
use recurrent_visualizer::ring::{drain, new_rings};

fn fpu(op: Op, a: u32, b: u32) -> u32 {
    let (a, b) = (f32::from_bits(a), f32::from_bits(b));
    match op {
        Op::Add => a + b,
        Op::Sub => a - b,
        Op::Mul => a * b,
        Op::Div => a / b,
        Op::Pow => a.powf(b),
    }
    .to_bits()
}

fn rest(consumer: &mut ringbuf::Consumer<u32>) -> Vec<u32> {
    let mut samples = vec![0; consumer.len()];
    consumer.pop_slice(&mut samples);
    samples
}

fn names(list: &[&str]) -> Vec<Option<String>> {
    list.iter().map(|name| Some(name.to_string())).collect()
}

#[test]
fn channel_lists_are_comma_separated_numbers() {
    assert_eq!(parse_channels("4,5,6"), Some(vec![4, 5, 6]));
    assert_eq!(parse_channels("1"), Some(vec![1]));
    assert_eq!(parse_channels("+7,007"), Some(vec![7, 7]));
    assert_eq!(parse_channels("18446744073709551615"), Some(vec![usize::MAX]));
    for bad in ["", "0", "1,0", "1,,2", ",", "1,2,", "1 ,2", "a", "-1", "+", "1.0", "18446744073709551616"] {
        assert_eq!(parse_channels(bad), None, "{}", bad);
    }
}

#[test]
fn devices_match_by_substring_whatever_the_case() {
    let list = names(&["Built-in Microphone", "BlackHole 16ch", "BLACKHOLE 2ch"]);
    assert!(matches!(choose_device(&list, Some("blackHOLE"), true), Ok(DeviceChoice::Listed(1))));
    assert!(matches!(choose_device(&list, Some("2CH"), true), Ok(DeviceChoice::Listed(2))));
    assert!(matches!(choose_device(&list, Some(""), true), Ok(DeviceChoice::Listed(0))));
    assert!(matches!(
        choose_device(&list, Some("Loopback"), true),
        Err(StartError::NoMatch(name)) if name == "Loopback"
    ));
    assert!(matches!(choose_device(&list, None, true), Ok(DeviceChoice::Default)));
    assert!(matches!(choose_device(&list, None, false), Err(StartError::NoDefault)));
    let nameless = vec![None, Some("Ärger".to_string())];
    assert!(matches!(choose_device(&nameless, Some("äRG"), true), Ok(DeviceChoice::Listed(1))));
    assert!(matches!(choose_device(&nameless, Some("<unknown>"), true), Err(StartError::NoMatch(_))));
    assert!(name_matches("blackhole 16ch", "hole 16"));
    assert!(!name_matches("blackhole", "BLACK"));
    assert!(!name_matches("a", "ab"));
}

#[test]
fn asked_for_channels_are_taken_or_refused() {
    let plan = plan_stream(&Some(vec![4, 5, 6]), 16, 3).unwrap();
    assert_eq!(plan.map, vec![3, 4, 5]);
    assert!(!plan.repeats);
    let plan = plan_stream(&Some(vec![16, 1, 16]), 16, 3).unwrap();
    assert_eq!(plan.map, vec![15, 0, 15]);
    assert!(matches!(
        plan_stream(&Some(vec![4, 17, 18]), 16, 3),
        Err(StartError::NoSuchChannel(17))
    ));
    assert!(matches!(plan_stream(&Some(vec![0, 1, 2]), 2, 3), Err(StartError::NoSuchChannel(0))));
}

#[test]
fn devices_with_few_channels_repeat_the_last() {
    let map = |available: usize, inputs: usize| {
        let plan = plan_stream(&None, available, inputs).unwrap();
        (plan.map, plan.repeats)
    };
    assert_eq!(map(16, 3), (vec![0, 1, 2], false));
    assert_eq!(map(3, 3), (vec![0, 1, 2], false));
    assert_eq!(map(2, 3), (vec![0, 1, 1], true));
    assert_eq!(map(1, 3), (vec![0, 0, 0], true));
    assert_eq!(map(2, 2), (vec![0, 1], false));
    assert_eq!(map(0, 3), (vec![0, 0, 0], true));
}

#[test]
fn blocks_are_deinterleaved_into_the_rings() {
    let (mut producers, mut consumers) = new_rings(3, 8);
    feed(&[1, 2, 3, 4, 5, 6, 7, 8, 9, 10, 11], 4, &vec![3, 0, 1], &mut producers);
    let got: Vec<Vec<u32>> = consumers.iter_mut().map(rest).collect();
    assert_eq!(got, vec![vec![4, 8, 11], vec![1, 5, 9], vec![2, 6, 10]]);
}

#[test]
fn mono_devices_feed_the_same_samples_everywhere() {
    let (mut producers, mut consumers) = new_rings(3, 8);
    let plan = plan_stream(&None, 1, 3).unwrap();
    feed(&[5, 6, 7], 1, &plan.map, &mut producers);
    for consumer in consumers.iter_mut() {
        assert_eq!(rest(consumer), vec![5, 6, 7]);
    }
    feed(&[5, 6, 7], 0, &plan.map, &mut producers);
    feed(&[], 1, &plan.map, &mut producers);
    assert!(consumers.iter().all(|c| c.is_empty()));
}

#[test]
fn samples_without_room_are_dropped() {
    let (mut producers, mut consumers) = new_rings(2, 2);
    feed(&[1, 10, 2, 20, 3, 30], 2, &vec![0, 1], &mut producers);
    assert_eq!(rest(&mut consumers[0]), vec![1, 2]);
    assert_eq!(rest(&mut consumers[1]), vec![10, 20]);
}

#[test]
fn a_ring_with_room_takes_everything() {
    let (mut producers, mut consumers) = new_rings(2, 4);
    feed(&[1, 10, 2, 20], 2, &vec![0, 1], &mut producers);
    assert!(!process(&vec![vec![3, 4], vec![30, 40]], &mut producers));
    assert_eq!(rest(&mut consumers[0]), vec![1, 2, 3, 4]);
    assert_eq!(rest(&mut consumers[1]), vec![10, 20, 30, 40]);
}

#[test]
fn overruns_are_noticed() {
    let (mut producers, mut consumers) = new_rings(2, 3);
    assert!(!process(&vec![vec![1, 2, 3], vec![4]], &mut producers));
    assert!(process(&vec![vec![], vec![5, 6, 7]], &mut producers));
    assert_eq!(rest(&mut consumers[0]), vec![1, 2, 3]);
    assert_eq!(rest(&mut consumers[1]), vec![4, 5, 6]);
    assert!(!process(&vec![vec![8]], &mut producers));
    assert_eq!(rest(&mut consumers[0]), vec![8]);
}

#[test]
fn draining_moves_what_waits() {
    let (mut producers, mut consumers) = new_rings(1, RING_SIZE);
    let mut scratch = vec![8, 9];
    let mut window = FilteredBuffer::new(3, 1);
    assert_eq!(drain(&mut consumers[0], &mut scratch, &mut window), 0);
    assert_eq!(scratch, vec![8, 9]);
    assert!(window.buffer.is_empty());
    assert_eq!(producers[0].push_slice(&[1, 2, 3, 4, 5]), 5);
    assert_eq!(drain(&mut consumers[0], &mut scratch, &mut window), 5);
    assert_eq!(window.buffer, vec![3, 4, 5]);
    assert!(producers[0].push(6).is_ok());
    assert_eq!(drain(&mut consumers[0], &mut scratch, &mut window), 1);
    assert_eq!(window.buffer, vec![4, 5, 6]);
    assert_eq!(consumers[0].capacity(), 10240);
}

#[test]
fn updates_fill_the_windows_and_count_the_first_channel() {
    let (mut producers, mut consumers) = new_rings(3, 16);
    let mut app = App::new(4, Plot::Three, &fpu);
    producers[0].push_slice(&[1, 2, 3]);
    producers[1].push_slice(&[10, 20, 30, 40, 50]);
    app.update(&mut consumers);
    assert_eq!(app.buffers[0].buffer, vec![1, 2, 3]);
    assert_eq!(app.buffers[1].buffer, vec![20, 30, 40, 50]);
    assert!(app.buffers[2].buffer.is_empty());
    assert_eq!(app.samples, 3);
    producers[0].push_slice(&[4, 5]);
    app.update(&mut consumers);
    assert_eq!(app.buffers[0].buffer, vec![2, 3, 4, 5]);
    assert_eq!(app.samples, 5);
    app.samples = u64::MAX;
    producers[0].push_slice(&[6, 7]);
    app.update(&mut consumers);
    assert_eq!(app.samples, 1);
    // Fewer rings than windows, and more.
    let mut none = vec![];
    app.update(&mut none);
    assert_eq!(app.samples, 1);
    let mut two = App::new(4, Plot::Two, &fpu);
    producers[2].push_slice(&[9]);
    two.update(&mut consumers);
    assert_eq!(consumers[2].len(), 1);
}

#[test]
fn the_mapped_channels_reach_the_windows_in_order() {
    let plan = plan_stream(&parse_channels("4,5,6"), 16, 3).unwrap();
    let (mut producers, mut consumers) = new_rings(3, RING_SIZE);
    let mut app = App::new(4, Plot::Three, &fpu);
    for block in 0..3u32 {
        // Two frames of sixteen channels; a sample tells its frame and channel.
        let data: Vec<u32> = (0..32).map(|k| (2 * block + k / 16) * 100 + k % 16 + 1).collect();
        feed(&data, 16, &plan.map, &mut producers);
        app.update(&mut consumers);
    }
    assert_eq!(app.buffers[0].buffer, vec![204, 304, 404, 504]);
    assert_eq!(app.buffers[1].buffer, vec![205, 305, 405, 505]);
    assert_eq!(app.buffers[2].buffer, vec![206, 306, 406, 506]);
    assert_eq!(app.samples, 6);
}

#[test]
fn inputs_are_listed_with_their_channels() {
    let devices = vec![
        InputDevice { name: Some("Mic".to_string()), channels: Some(1) },
        InputDevice { name: None, channels: None },
    ];
    let lines = list_inputs(&devices, &Some("Mic".to_string()));
    assert_eq!((lines[0].name.as_str(), lines[0].channels, lines[0].default), ("Mic", 1, true));
    assert_eq!((lines[1].name.as_str(), lines[1].channels, lines[1].default), ("<unknown>", 0, false));
    let lines = list_inputs(&devices, &None);
    assert!(lines.iter().all(|line| !line.default));
    let nameless = vec![InputDevice { name: Some(String::new()), channels: Some(2) }];
    assert!(list_inputs(&nameless, &None)[0].default);
}

#[test]
fn ports_are_numbered_from_one() {
    assert_eq!(ports(3), vec!["vis_in_1", "vis_in_2", "vis_in_3"]);
    assert_eq!(ports(2), vec!["vis_in_1", "vis_in_2"]);
    assert!(ports(0).is_empty());
}
