//! The command line of the frame extractor.

use crate::text::{decimal_digits, push_decimal, views};
use vstd::prelude::*;
use vstd::string::*;

verus! {

/// One run of the frame extractor: a recorded clip is cut into numbered
/// still images of a fixed size at a fixed rate.
#[derive(Debug, Clone)]
pub struct FfmpegArgs {
    pub mp4_path: String,
    pub fps: u32,
    pub width: u32,
    pub height: u32,
    pub interpolation: String,
    pub output_directory: String,
}

/// The arguments that the extractor is started with.
pub open spec fn ffmpeg_arguments(args: FfmpegArgs) -> Seq<Seq<char>> {
    seq![
        "-i"@,
        args.mp4_path@,
        "-r"@,
        decimal_digits(args.fps as nat),
        "-s"@,
        decimal_digits(args.width as nat) + "x"@ + decimal_digits(args.height as nat),
        "-sws_flags"@,
        args.interpolation@,
        "-vf"@,
        "fps=fps="@ + decimal_digits(args.fps as nat),
        args.output_directory@ + "/%d.png"@,
    ]
}

impl FfmpegArgs {
    /// The arguments for the extractor, in the order in which it takes
    /// them: the clip, the rate, the size, the scaling filter, the rate
    /// filter and the pattern of the image names.
    pub fn arguments(&self) -> (arguments: Vec<String>)
        ensures
            views(arguments@) == ffmpeg_arguments(*self),
    {
        let mut rate = String::new();
        push_decimal(&mut rate, self.fps as usize);
        let mut resolution = String::new();
        push_decimal(&mut resolution, self.width as usize);
        resolution.append("x");
        push_decimal(&mut resolution, self.height as usize);
        let mut filter = String::from_str("fps=fps=");
        push_decimal(&mut filter, self.fps as usize);
        let mut output_pattern = self.output_directory.clone();
        output_pattern.append("/%d.png");

        let mut arguments: Vec<String> = Vec::new();
        arguments.push(String::from_str("-i"));
        arguments.push(self.mp4_path.clone());
        arguments.push(String::from_str("-r"));
        arguments.push(rate);
        arguments.push(String::from_str("-s"));
        arguments.push(resolution);
        arguments.push(String::from_str("-sws_flags"));
        arguments.push(self.interpolation.clone());
        arguments.push(String::from_str("-vf"));
        arguments.push(filter);
        arguments.push(output_pattern);
        assert(views(arguments@) =~= ffmpeg_arguments(*self));
        arguments
    }
}

} // verus!
