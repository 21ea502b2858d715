use nih_faust_jit::testbench::create_testbench;
use nih_faust_jit::testbench::ring_buffer::{create_stereo_ring_buffer, VisualizationConsumer};

#[test]
fn samples_arrive_in_order() {
    let (mut producer, mut consumer) = create_stereo_ring_buffer(8);
    let (mut left, mut right) = (vec![99], vec![]);
    producer.push_stereo(&vec![1, 2, 3], &vec![10, 20]);
    assert_eq!(consumer.available(), 3);
    consumer.read_available(&mut left, &mut right);
    assert_eq!((left.clone(), right.clone()), (vec![1, 2, 3], vec![10, 20]));
    assert_eq!(consumer.available(), 0);
    for round in 0..10u32 {
        producer.push_stereo(&vec![round, round + 100], &vec![round]);
        consumer.read_available(&mut left, &mut right);
        assert_eq!(left, vec![round, round + 100]);
        assert_eq!(right, vec![round]);
    }
    consumer.read_available(&mut left, &mut right);
    assert!(left.is_empty() && right.is_empty());
}

#[test]
fn available_samples_can_be_read() {
    let (mut producer, mut consumer) = create_stereo_ring_buffer(8);
    let (mut left, mut right) = (vec![], vec![]);
    assert_eq!(consumer.available(), 0);
    producer.push_stereo(&vec![1, 2, 3], &vec![4]);
    let announced = consumer.available();
    producer.push_stereo(&vec![5], &vec![]);
    consumer.read_available(&mut left, &mut right);
    assert_eq!(announced, 3);
    assert!(left.len() >= announced);
    assert_eq!(left, vec![1, 2, 3, 5]);
    producer.push_stereo(&vec![0; 20], &vec![]);
    assert_eq!(consumer.available(), 8);
}

#[test]
fn full_rings_drop_what_comes_last() {
    let (mut producer, mut consumer) = create_stereo_ring_buffer(4);
    let (mut left, mut right) = (vec![], vec![]);
    producer.push_stereo(&vec![1, 2, 3, 4, 5, 6], &vec![1]);
    producer.push_stereo(&vec![7], &vec![2, 3, 4, 5]);
    consumer.read_available(&mut left, &mut right);
    assert_eq!(left, vec![1, 2, 3, 4]);
    assert_eq!(right, vec![1, 2, 3, 4]);
}

#[test]
fn what_fits_is_written_in_full() {
    let (mut producer, mut consumer) = create_stereo_ring_buffer(4);
    let (mut left, mut right) = (vec![], vec![]);
    producer.push_stereo(&vec![1, 2, 3, 4], &vec![5, 6, 7, 8]);
    consumer.read_available(&mut left, &mut right);
    assert_eq!((left, right), (vec![1, 2, 3, 4], vec![5, 6, 7, 8]));
}

#[test]
fn what_was_pushed_comes_back() {
    let (mut producer, mut consumer) = create_stereo_ring_buffer(6);
    let (mut left, mut right) = (vec![99; 9], vec![98]);
    for round in 0..5u32 {
        producer.push_stereo(&vec![round, 1, 2], &vec![round]);
        producer.push_stereo(&vec![3], &vec![4, 5]);
        producer.push_stereo(&vec![6, 7], &vec![]);
        assert_eq!(consumer.unread(&producer), (6, 3));
        consumer.read_written(&producer, &mut left, &mut right);
        assert_eq!(left, vec![round, 1, 2, 3, 6, 7]);
        assert_eq!(right, vec![round, 4, 5]);
        assert_eq!((consumer.unread(&producer), consumer.available()), ((0, 0), 0));
        consumer.read_written(&producer, &mut left, &mut right);
        assert!(left.is_empty() && right.is_empty());
    }
}

#[test]
fn what_was_pushed_is_available() {
    let (mut producer, mut consumer) = create_stereo_ring_buffer(4);
    let (mut left, mut right) = (vec![5], vec![6, 7]);
    for round in 0..5u32 {
        producer.push_stereo(&vec![round, 1], &vec![2]);
        producer.push_stereo(&vec![3, 4], &vec![round]);
        assert_eq!(consumer.unread(&producer), (4, 2));
        consumer.read_available(&mut left, &mut right);
        assert_eq!((left.clone(), right.clone()), (vec![round, 1, 3, 4], vec![2, round]));
        assert_eq!((consumer.unread(&producer), consumer.available()), ((0, 0), 0));
        consumer.read_available(&mut left, &mut right);
        assert!(left.is_empty() && right.is_empty());
    }
}

#[test]
fn room_comes_back_with_what_is_read() {
    let (mut producer, mut consumer) = create_stereo_ring_buffer(3);
    let (mut left, mut right) = (vec![], vec![]);
    producer.push_stereo(&vec![1, 2], &vec![]);
    producer.push_stereo(&vec![3, 4, 5], &vec![]);
    assert_eq!(consumer.unread(&producer), (3, 0));
    consumer.read_written(&producer, &mut left, &mut right);
    assert_eq!(left, vec![1, 2, 3]);
    producer.push_stereo(&vec![6, 7, 8, 9], &vec![]);
    consumer.read_available(&mut left, &mut right);
    assert_eq!(left, vec![6, 7, 8]);
}

#[test]
fn mono_buffers_go_to_both_sides() {
    let (mut producer, mut consumer) = create_stereo_ring_buffer(16);
    let (mut left, mut right) = (vec![], vec![]);
    producer.push_from_buffer(&vec![vec![1, 2]]);
    producer.push_from_buffer(&vec![]);
    producer.push_from_buffer(&vec![vec![3], vec![4], vec![5]]);
    consumer.read_available(&mut left, &mut right);
    assert_eq!(left, vec![1, 2, 3]);
    assert_eq!(right, vec![1, 2, 4]);
}

#[test]
fn order_is_kept_around_the_end_of_the_ring() {
    let (mut producer, mut consumer) = create_stereo_ring_buffer(5);
    let (mut left, mut right) = (vec![], vec![]);
    let mut all: Vec<u32> = vec![];
    for i in 0..30u32 {
        producer.push_stereo(&vec![2 * i, 2 * i + 1], &vec![]);
        if i % 2 == 1 {
            consumer.read_available(&mut left, &mut right);
            all.extend(&left);
        }
    }
    assert_eq!(all, (0..60).collect::<Vec<u32>>());
}

#[test]
fn visualization_starts_enabled() {
    let (_, consumer) = create_stereo_ring_buffer(2);
    assert!(VisualizationConsumer::new(consumer).enabled);
}

#[test]
fn testbench_connects_both_threads() {
    let (mut audio, mut gui, metrics) = create_testbench();
    assert_eq!((metrics.buffer_size, metrics.sample_rate), (512, 44100));
    assert!(audio.enabled);
    audio.push_from_buffer(&vec![vec![7; 100], vec![8; 100]]);
    audio.push_pre_dsp(&vec![vec![9; 50]]);
    gui.state.spectrum.show_waterfall = true;
    let analysis = gui.update();
    assert_eq!(gui.state.temp_left, vec![7; 100]);
    assert_eq!(gui.state.temp_right, vec![8; 100]);
    assert_eq!(gui.temp_pre_left, vec![9; 50]);
    assert_eq!(gui.temp_pre_right, vec![9; 50]);
    assert_eq!(gui.state.oscilloscope.accum_left, vec![7; 100]);
    assert_eq!(gui.state.spectrum.accum_buffer, vec![7; 100]);
    assert_eq!(gui.state.pre_spectrum.accum_buffer, vec![9; 50]);
    assert!(gui.state.pre_spectrum.show_waterfall);
    assert!(!gui.state.pre_erb.show_waterfall);
    assert!(analysis.erb && analysis.pre_erb);
    assert!(analysis.spectrum.is_none() && analysis.pre_spectrum.is_none());
}

#[test]
fn disabled_testbench_pushes_nothing() {
    let (mut audio, mut gui, _) = create_testbench();
    audio.enabled = false;
    audio.push_from_buffer(&vec![vec![7; 10]]);
    audio.push_pre_dsp(&vec![vec![7; 10]]);
    let analysis = gui.update();
    assert!(!analysis.erb && !analysis.pre_erb);
    assert!(gui.state.oscilloscope.accum_left.is_empty());
    assert!(gui.state.pre_spectrum.accum_buffer.is_empty());
}

#[test]
fn full_block_is_handed_to_the_transform() {
    let (mut audio, mut gui, _) = create_testbench();
    let samples: Vec<u32> = (0..5000).collect();
    audio.push_from_buffer(&vec![samples]);
    let analysis = gui.update();
    let block = analysis.spectrum.unwrap();
    assert_eq!(block.len(), 4096);
    assert_eq!(block[0], 904);
    assert_eq!(block[4095], 4999);
}
