use bevy_light_field::ffmpeg::FfmpegArgs;

#[test]
fn extractor_arguments_come_in_order() {
    let args = FfmpegArgs {
        mp4_path: "capture/3/raw/0.mp4".to_string(),
        fps: 5,
        width: 1920,
        height: 1080,
        interpolation: "lanczos".to_string(),
        output_directory: "capture/3/frames/0".to_string(),
    };
    assert_eq!(
        args.arguments(),
        vec![
            "-i",
            "capture/3/raw/0.mp4",
            "-r",
            "5",
            "-s",
            "1920x1080",
            "-sws_flags",
            "lanczos",
            "-vf",
            "fps=fps=5",
            "capture/3/frames/0/%d.png",
        ]
    );
}

#[test]
fn extractor_arguments_write_zero_and_the_largest_numbers() {
    let args = FfmpegArgs {
        mp4_path: String::new(),
        fps: 0,
        width: u32::MAX,
        height: 10,
        interpolation: String::new(),
        output_directory: String::new(),
    };
    let arguments = args.arguments();
    assert_eq!(arguments[3], "0");
    assert_eq!(arguments[5], "4294967295x10");
    assert_eq!(arguments[9], "fps=fps=0");
    assert_eq!(arguments[10], "/%d.png");
}
