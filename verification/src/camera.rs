//! Choosing a camera and the format to open it in.

use vstd::prelude::*;

use crate::config::{CameraConfig, FormatConfig};
use crate::device::{arrange, native_type, CameraDevice, CaptureFormat, FormatOrder};

verus! {

/// Why no camera could be opened.
#[derive(Debug, PartialEq, Eq)]
pub enum CameraOpenError {
    NoCamera,
    Missing(String),
    Other(String),
}

impl CameraOpenError {
    /// The text that describes this error.
    pub open spec fn text(self) -> Seq<char> {
        match self {
            CameraOpenError::NoCamera => "no camera is connected"@,
            CameraOpenError::Missing(name) => "camera "@ + name@ + " is not connected"@,
            CameraOpenError::Other(error) => error@,
        }
    }

    /// Describes the error in one line.
    pub fn message(&self) -> (message: String)
        ensures
            message@ == self.text(),
    {
        let mut message = String::new();
        match self {
            CameraOpenError::NoCamera => {
                message.append("no camera is connected");
            },
            CameraOpenError::Missing(name) => {
                message.append("camera ");
                message.append(name.as_str());
                message.append(" is not connected");
            },
            CameraOpenError::Other(error) => {
                message.append(error.as_str());
            },
        }
        proof {
            assert(message@ =~= self.text());
        }
        message
    }
}

/// The formats to try, the best first: those that are fast enough for the output
/// and not larger than full HD, then by size, by encoding, and the slowest first.
pub fn rank_formats(formats: &[CaptureFormat], output_fps: u32) -> (ranked: Vec<CaptureFormat>)
    ensures
        exists|places: Seq<int>|
            #![trigger (FormatOrder::Trying { output_fps }).arranges(formats@, places)]
            (FormatOrder::Trying { output_fps }).arranges(formats@, places) && ranked@
                == Seq::new(places.len(), |p: int| formats@[places[p]]),
{
    arrange(formats, FormatOrder::Trying { output_fps })
}

/// The first device with a link, if any.
pub open spec fn link_place(cameras: Seq<CameraDevice>, link: Seq<char>) -> Option<int>
    decreases cameras.len(),
{
    if cameras.len() == 0 {
        None
    } else {
        match link_place(cameras.drop_last(), link) {
            Some(place) => Some(place),
            None => if cameras.last().symbolic_link@ == link {
                Some(cameras.len() - 1)
            } else {
                None
            },
        }
    }
}

/// Where a device with a link stands among the cameras.
pub fn find_link(cameras: &[CameraDevice], link: &String) -> (place: Option<usize>)
    ensures
        match place {
            Some(i) => i < cameras@.len() && link_place(cameras@, link@) == Some(i as int),
            None => link_place(cameras@, link@) is None,
        },
{
    let mut i: usize = 0;
    proof {
        assert(cameras@.take(0) =~= Seq::<CameraDevice>::empty());
        assert(cameras@.take(cameras@.len() as int) =~= cameras@);
    }
    while i < cameras.len()
        invariant
            i <= cameras@.len(),
            link_place(cameras@.take(i as int), link@) is None,
            cameras@.take(cameras@.len() as int) == cameras@,
        decreases cameras@.len() - i,
    {
        proof {
            assert(cameras@.take(i + 1).drop_last() =~= cameras@.take(i as int));
            assert(cameras@.take(i + 1).last() == cameras@[i as int]);
        }
        if cameras[i].symbolic_link == *link {
            proof {
                lemma_link_place_stays(cameras@, link@, i + 1, cameras@.len() as int);
            }
            return Some(i);
        }
        i = i + 1;
    }
    None
}

proof fn lemma_link_place_stays(cameras: Seq<CameraDevice>, link: Seq<char>, i: int, j: int)
    requires
        0 <= i <= j <= cameras.len(),
        link_place(cameras.take(i), link) is Some,
    ensures
        link_place(cameras.take(j), link) == link_place(cameras.take(i), link),
    decreases j - i,
{
    if i < j {
        lemma_link_place_stays(cameras, link, i, j - 1);
        assert(cameras.take(j).drop_last() =~= cameras.take(j - 1));
    }
}

/// The cameras of the system.
pub struct MediaFoundationCameras;

impl MediaFoundationCameras {
    /// Picks the configured camera, or the first one where none is configured.
    pub fn find<'a>(camera: &CameraConfig, cameras: &'a [CameraDevice]) -> (result: Result<
        &'a CameraDevice,
        CameraOpenError,
    >)
        ensures
            match camera.symbolic_link {
                Some(link) => match link_place(cameras@, link@) {
                    Some(place) => result == Ok::<&CameraDevice, CameraOpenError>(
                        &cameras@[place],
                    ),
                    None => result matches Err(CameraOpenError::Missing(name)) && name@ == (
                    match camera.name {
                        Some(name) => name@,
                        None => link@,
                    }),
                },
                None => if cameras@.len() > 0 {
                    result == Ok::<&CameraDevice, CameraOpenError>(&cameras@[0])
                } else {
                    result matches Err(CameraOpenError::NoCamera)
                },
            },
    {
        match &camera.symbolic_link {
            Some(link) => match find_link(cameras, link) {
                Some(place) => Ok(&cameras[place]),
                None => {
                    let name = match &camera.name {
                        Some(name) => name.clone(),
                        None => link.clone(),
                    };
                    Err(CameraOpenError::Missing(name))
                },
            },
            None => if cameras.len() > 0 {
                Ok(&cameras[0])
            } else {
                Err(CameraOpenError::NoCamera)
            },
        }
    }

    /// The formats to open a camera in: the configured one where the camera has
    /// it, else all that can be decoded, the best first.
    pub fn candidates(
        formats: &[CaptureFormat],
        wanted: Option<FormatConfig>,
        output_fps: u32,
    ) -> (candidates: Vec<CaptureFormat>)
        ensures
            Self::may_try(formats@, wanted, output_fps, candidates@),
    {
        if let Some(format) = wanted {
            let capture = format.to_capture();
            if native_type(formats, capture).is_some() {
                let mut only: Vec<CaptureFormat> = Vec::new();
                only.push(capture);
                proof {
                    assert(only@ =~= seq![capture]);
                }
                return only;
            }
        }
        rank_formats(formats, output_fps)
    }

    /// The formats to try are those of a camera.
    pub open spec fn may_try(
        formats: Seq<CaptureFormat>,
        wanted: Option<FormatConfig>,
        output_fps: u32,
        candidates: Seq<CaptureFormat>,
    ) -> bool {
        match wanted {
            Some(format) if formats.contains(format.capture()) => {
                candidates == seq![format.capture()]
            },
            _ => exists|places: Seq<int>|
                #![trigger (FormatOrder::Trying { output_fps }).arranges(formats, places)]
                (FormatOrder::Trying { output_fps }).arranges(formats, places) && candidates
                    == Seq::new(places.len(), |p: int| formats[places[p]]),
        }
    }
}

/// Opening a camera: the formats that are still to be tried, and what went wrong
/// last.
pub struct Opening {
    candidates: Vec<CaptureFormat>,
    tried: usize,
    last_error: String,
}

impl Opening {
    /// No more formats were tried than there are.
    pub closed spec fn wf(self) -> bool {
        self.tried <= self.candidates@.len()
    }

    /// The formats that are still to be tried.
    pub closed spec fn left(self) -> Seq<CaptureFormat> {
        self.candidates@.skip(self.tried as int)
    }

    /// What is reported where no format is left.
    pub closed spec fn fault(self) -> Seq<char> {
        self.last_error@
    }

    /// Starts with the formats of a camera.
    pub fn new(device: &CameraDevice, candidates: Vec<CaptureFormat>) -> (opening: Self)
        ensures
            opening.wf(),
            opening.left() == candidates@,
            opening.fault() == "camera "@ + device.name@ + " offers no usable format"@,
    {
        let mut last_error = String::new();
        last_error.append("camera ");
        last_error.append(device.name.as_str());
        last_error.append(" offers no usable format");
        let opening = Opening { candidates, tried: 0, last_error };
        proof {
            assert(opening.left() =~= candidates@);
            assert(opening.fault() =~= "camera "@ + device.name@ + " offers no usable format"@);
        }
        opening
    }

    /// The format to try next, or the error where all were tried.
    pub fn next(&mut self) -> (next: Result<CaptureFormat, CameraOpenError>)
        requires
            old(self).wf(),
        ensures
            final(self).wf(),
            final(self).fault() == old(self).fault(),
            match next {
                Ok(format) => old(self).left() == seq![format] + final(self).left(),
                Err(error) => {
                    &&& old(self).left().len() == 0
                    &&& final(self).left().len() == 0
                    &&& error matches CameraOpenError::Other(text) && text@ == old(self).fault()
                },
            },
    {
        if self.tried < self.candidates.len() {
            let format = self.candidates[self.tried];
            self.tried = self.tried + 1;
            proof {
                assert(old(self).left() =~= seq![format] + self.left());
            }
            Ok(format)
        } else {
            Err(CameraOpenError::Other(self.last_error.clone()))
        }
    }

    /// Remembers why a format failed.
    pub fn failed(&mut self, error: String)
        requires
            old(self).wf(),
        ensures
            final(self).wf(),
            final(self).left() == old(self).left(),
            final(self).fault() == error@,
    {
        self.last_error = error;
    }
}

/// The configured camera is the one that is found, or none is.
pub proof fn law_no_other_camera_stands_in(cameras: Seq<CameraDevice>, link: Seq<char>)
    ensures
        match link_place(cameras, link) {
            Some(place) => {
                &&& 0 <= place < cameras.len()
                &&& cameras[place].symbolic_link@ == link
                &&& forall|i: int| 0 <= i < place ==> (#[trigger] cameras[i]).symbolic_link@ != link
            },
            None => forall|i: int|
                0 <= i < cameras.len() ==> (#[trigger] cameras[i]).symbolic_link@ != link,
        },
    decreases cameras.len(),
{
    if cameras.len() > 0 {
        law_no_other_camera_stands_in(cameras.drop_last(), link);
        let rest = cameras.drop_last();
        assert forall|i: int| 0 <= i < rest.len() implies #[trigger] cameras[i] == rest[i] by {
        }
    }
}

} // verus!
