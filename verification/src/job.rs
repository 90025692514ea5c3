//! The job that makes thumbnails for the files directly below one directory
//! of a location.

use vstd::prelude::*;

verus! {

#[derive(Clone, Debug, PartialEq, Eq)]
pub struct ShallowThumbnailerJob {}

/// What the job is started with: the location, and the directory below it
/// whose files get thumbnails. An empty `sub_path` is the location itself.
#[derive(Clone, Debug, PartialEq, Eq)]
pub struct ShallowThumbnailerJobInit {
    pub location_id: i32,
    pub location_path: String,
    pub sub_path: String,
}

/// The directory that a job looks through.
#[derive(Clone, Debug, PartialEq, Eq)]
pub enum ScanRoot {
    Location,
    SubPath,
}

/// What kind of file a step makes a thumbnail of.
#[derive(Clone, Copy, Debug, PartialEq, Eq, Structural)]
pub enum StepKind {
    Image,
    Video,
}

/// One file to make a thumbnail of.
#[derive(Clone, Debug, PartialEq, Eq)]
pub struct Step<F> {
    pub file_path: F,
    pub kind: StepKind,
}

/// The steps for the image files followed by the steps for the video files.
pub open spec fn steps_of<F>(images: Seq<F>, videos: Seq<F>) -> Seq<Step<F>> {
    Seq::new(
        images.len() + videos.len(),
        |i: int|
            if i < images.len() {
                Step { file_path: images[i], kind: StepKind::Image }
            } else {
                Step { file_path: videos[i - images.len()], kind: StepKind::Video }
            },
    )
}

impl ShallowThumbnailerJobInit {
    /// Where the job looks for files.
    pub fn scan_root(&self) -> (root: ScanRoot)
        ensures
            root is Location <==> self.sub_path@.len() == 0,
    {
        if self.sub_path.as_str().unicode_len() == 0 {
            ScanRoot::Location
        } else {
            ScanRoot::SubPath
        }
    }
}

impl ShallowThumbnailerJob {
    pub fn new() -> Self {
        ShallowThumbnailerJob {  }
    }

    /// The steps of a job, from the files that were found.
    pub fn steps<F>(images: Vec<F>, videos: Vec<F>) -> (steps: Vec<Step<F>>)
        ensures
            steps@ == steps_of(images@, videos@),
    {
        let mut steps: Vec<Step<F>> = Vec::new();
        let mut rest = images;
        while rest.len() > 0
            invariant
                steps@.len() + rest@.len() == images@.len(),
                rest@ == images@.subrange(steps@.len() as int, images@.len() as int),
                forall|k: int|
                    0 <= k < steps@.len() ==> #[trigger] steps@[k] == (Step {
                        file_path: images@[k],
                        kind: StepKind::Image,
                    }),
            decreases rest@.len(),
        {
            let file_path = rest.remove(0);
            assert(rest@ =~= images@.subrange(steps@.len() as int + 1, images@.len() as int));
            steps.push(Step { file_path, kind: StepKind::Image });
        }
        let mut rest = videos;
        while rest.len() > 0
            invariant
                images@.len() <= steps@.len(),
                steps@.len() + rest@.len() == images@.len() + videos@.len(),
                rest@ == videos@.subrange(steps@.len() - images@.len(), videos@.len() as int),
                forall|k: int|
                    0 <= k < images@.len() ==> #[trigger] steps@[k] == (Step {
                        file_path: images@[k],
                        kind: StepKind::Image,
                    }),
                forall|k: int|
                    images@.len() <= k < steps@.len() ==> #[trigger] steps@[k] == (Step {
                        file_path: videos@[k - images@.len()],
                        kind: StepKind::Video,
                    }),
            decreases rest@.len(),
        {
            let file_path = rest.remove(0);
            assert(rest@ =~= videos@.subrange(steps@.len() - images@.len() + 1, videos@.len() as int));
            steps.push(Step { file_path, kind: StepKind::Video });
        }
        assert(steps@ =~= steps_of(images@, videos@));
        steps
    }
}

} // verus!
