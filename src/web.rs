use vstd::prelude::*;

use crate::geometry::Rect;

verus! {

/// Why a client's detections could not be used.
#[derive(Clone, Copy, Debug, PartialEq, Eq, Structural)]
pub enum DetectionError {
    /// A detection came without its box.
    MissingBox,
    /// A box side does not fit in a signed 32-bit pixel count.
    SideTooLarge,
}

/// The first detection of a list that has no usable box, and why.
#[derive(Clone, Copy, Debug, PartialEq, Eq, Structural)]
pub struct RegionError {
    pub index: usize,
    pub error: DetectionError,
}

/// A box as a client sends it.
pub trait BoundingBox {
    spec fn spec_x(&self) -> i32;

    spec fn spec_y(&self) -> i32;

    spec fn spec_width(&self) -> Result<u32, DetectionError>;

    spec fn spec_height(&self) -> Result<u32, DetectionError>;

    fn x(&self) -> (r: i32)
        ensures
            r == self.spec_x(),
    ;

    fn y(&self) -> (r: i32)
        ensures
            r == self.spec_y(),
    ;

    fn width(&self) -> (r: Result<u32, DetectionError>)
        ensures
            r == self.spec_width(),
    ;

    fn height(&self) -> (r: Result<u32, DetectionError>)
        ensures
            r == self.spec_height(),
    ;
}

/// A text and the box it belongs in, as a client sends them.
pub trait MangatraDetection {
    type B: BoundingBox;

    spec fn spec_text(&self) -> Seq<char>;

    spec fn spec_box(&self) -> Option<Self::B>;

    fn text(&self) -> (r: &String)
        ensures
            r@ == self.spec_text(),
    ;

    fn bounding_box(&self) -> (r: Option<&Self::B>)
        ensures
            r matches Some(b) ==> self.spec_box() == Some(*b),
            r is None ==> self.spec_box() is None,
    ;
}

/// A box of the HTTP interface.
#[derive(Clone, Copy, Debug, PartialEq, Eq, Structural)]
pub struct HttpBox {
    pub x: i32,
    pub y: i32,
    pub width: u32,
    pub height: u32,
}

impl BoundingBox for HttpBox {
    open spec fn spec_x(&self) -> i32 {
        self.x
    }

    open spec fn spec_y(&self) -> i32 {
        self.y
    }

    open spec fn spec_width(&self) -> Result<u32, DetectionError> {
        Ok(self.width)
    }

    open spec fn spec_height(&self) -> Result<u32, DetectionError> {
        Ok(self.height)
    }

    fn x(&self) -> (r: i32) {
        self.x
    }

    fn y(&self) -> (r: i32) {
        self.y
    }

    fn width(&self) -> (r: Result<u32, DetectionError>) {
        Ok(self.width)
    }

    fn height(&self) -> (r: Result<u32, DetectionError>) {
        Ok(self.height)
    }
}

/// A text with its box, as the HTTP interface carries them.
#[derive(Clone, Debug)]
pub struct HttpDetection {
    pub text: String,
    pub bounding_box: HttpBox,
}

impl MangatraDetection for HttpDetection {
    type B = HttpBox;

    open spec fn spec_text(&self) -> Seq<char> {
        self.text@
    }

    open spec fn spec_box(&self) -> Option<HttpBox> {
        Some(self.bounding_box)
    }

    fn text(&self) -> (r: &String) {
        &self.text
    }

    fn bounding_box(&self) -> (r: Option<&HttpBox>) {
        Some(&self.bounding_box)
    }
}

/// The rectangle of a client's box, or why it has none.
pub open spec fn region_of<T: MangatraDetection>(d: T) -> Result<Rect, DetectionError> {
    match d.spec_box() {
        None => Err(DetectionError::MissingBox),
        Some(b) => match b.spec_width() {
            Err(e) => Err(e),
            Ok(w) => match b.spec_height() {
                Err(e) => Err(e),
                Ok(h) => if w > i32::MAX || h > i32::MAX {
                    Err(DetectionError::SideTooLarge)
                } else {
                    Ok(Rect { x: b.spec_x(), y: b.spec_y(), width: w as i32, height: h as i32 })
                },
            },
        },
    }
}

/// Texts and regions of a client's detections, index-aligned; fails on the
/// first detection without a usable box, naming it.
pub fn collect_regions<T: MangatraDetection>(detections: &[T]) -> (r: Result<
    (Vec<String>, Vec<Rect>),
    RegionError,
>)
    ensures
        r is Ok <==> forall|k: int|
            0 <= k < detections@.len() ==> (#[trigger] region_of(detections@[k])) is Ok,
        r matches Err(e) ==> {
            &&& e.index < detections@.len()
            &&& region_of(detections@[e.index as int]) == Err::<Rect, DetectionError>(e.error)
            &&& forall|k: int| 0 <= k < e.index ==> (#[trigger] region_of(detections@[k])) is Ok
        },
        r matches Ok(v) ==> {
            &&& v.0@.len() == detections@.len()
            &&& v.1@.len() == detections@.len()
            &&& forall|k: int|
                0 <= k < detections@.len() ==> (#[trigger] v.0@[k])@ == detections@[k].spec_text()
                    && Ok::<Rect, DetectionError>(v.1@[k]) == region_of(detections@[k])
        },
{
    let mut texts: Vec<String> = Vec::new();
    let mut regions: Vec<Rect> = Vec::new();
    let mut k: usize = 0;
    while k < detections.len()
        invariant
            k <= detections@.len(),
            texts@.len() == k,
            regions@.len() == k,
            forall|m: int| 0 <= m < k ==> (#[trigger] region_of(detections@[m])) is Ok,
            forall|m: int|
                0 <= m < k ==> (#[trigger] texts@[m])@ == detections@[m].spec_text()
                    && Ok::<Rect, DetectionError>(regions@[m]) == region_of(detections@[m]),
        decreases detections@.len() - k,
    {
        let d = &detections[k];
        let text = d.text().clone();
        let b = match d.bounding_box() {
            Some(b) => b,
            None => {
                assert(region_of(detections@[k as int]) == Err::<Rect, DetectionError>(
                    DetectionError::MissingBox,
                ));
                return Err(RegionError { index: k, error: DetectionError::MissingBox });
            },
        };
        let width = match b.width() {
            Ok(w) => w,
            Err(e) => {
                assert(region_of(detections@[k as int]) == Err::<Rect, DetectionError>(e));
                return Err(RegionError { index: k, error: e });
            },
        };
        let height = match b.height() {
            Ok(h) => h,
            Err(e) => {
                assert(region_of(detections@[k as int]) == Err::<Rect, DetectionError>(e));
                return Err(RegionError { index: k, error: e });
            },
        };
        if width > i32::MAX as u32 || height > i32::MAX as u32 {
            assert(region_of(detections@[k as int]) == Err::<Rect, DetectionError>(
                DetectionError::SideTooLarge,
            ));
            return Err(RegionError { index: k, error: DetectionError::SideTooLarge });
        }
        texts.push(text);
        regions.push(Rect { x: b.x(), y: b.y(), width: width as i32, height: height as i32 });
        k = k + 1;
    }
    Ok((texts, regions))
}

/// The boxes of detected regions as the HTTP interface returns them.
pub fn http_boxes(regions: &Vec<Rect>) -> (r: Result<Vec<HttpBox>, DetectionError>)
    ensures
        r is Ok <==> forall|k: int|
            0 <= k < regions@.len() ==> (#[trigger] regions@[k]).width >= 0 && regions@[k].height
                >= 0,
        r is Err ==> r == Err::<Vec<HttpBox>, DetectionError>(DetectionError::SideTooLarge),
        r matches Ok(v) ==> v@.len() == regions@.len() && forall|k: int|
            0 <= k < regions@.len() ==> (#[trigger] v@[k]) == (HttpBox {
                x: regions@[k].x,
                y: regions@[k].y,
                width: regions@[k].width as u32,
                height: regions@[k].height as u32,
            }),
{
    let mut v: Vec<HttpBox> = Vec::new();
    let mut k: usize = 0;
    while k < regions.len()
        invariant
            k <= regions@.len(),
            v@.len() == k,
            forall|m: int|
                0 <= m < k ==> (#[trigger] regions@[m]).width >= 0 && regions@[m].height >= 0,
            forall|m: int|
                0 <= m < k ==> (#[trigger] v@[m]) == (HttpBox {
                    x: regions@[m].x,
                    y: regions@[m].y,
                    width: regions@[m].width as u32,
                    height: regions@[m].height as u32,
                }),
        decreases regions@.len() - k,
    {
        let r = regions[k];
        if r.width < 0 || r.height < 0 {
            return Err(DetectionError::SideTooLarge);
        }
        v.push(HttpBox { x: r.x, y: r.y, width: r.width as u32, height: r.height as u32 });
        k = k + 1;
    }
    Ok(v)
}

/// Request to blank the text regions of a page.
#[derive(Clone, Debug)]
pub struct HttpCleanRequest {
    pub image: Vec<u8>,
    pub padding: Option<u16>,
}

#[derive(Clone, Debug)]
pub struct HttpCleanResponse {
    pub image: Vec<u8>,
}

/// Request to read the text of a page.
#[derive(Clone, Debug)]
pub struct HttpExtractRequest {
    pub image: Vec<u8>,
    pub padding: Option<u16>,
    pub lang: String,
}

#[derive(Clone, Debug)]
pub struct HttpExtractResponse {
    pub detections: Vec<HttpDetection>,
}

/// Request to write translations into a page.
#[derive(Clone, Debug)]
pub struct HttpReplaceRequest {
    pub image: Vec<u8>,
    pub padding: Option<u16>,
    pub translations: Vec<HttpDetection>,
}

#[derive(Clone, Debug)]
pub struct HttpReplaceResponse {
    pub image: Vec<u8>,
}

/// Request to find the text regions of a page.
#[derive(Clone, Debug)]
pub struct HttpDetectRequest {
    pub image: Vec<u8>,
    pub padding: Option<u16>,
}

#[derive(Clone, Debug)]
pub struct HttpDetectResponse {
    pub boxes: Vec<HttpBox>,
}

/// Settings of the gRPC side of the server.
#[derive(Clone, Debug)]
pub struct MangatraGrpcService {
    pub model_path: String,
    pub tessdata_path: String,
}

/// Makes one hybrid service per connection from a web service maker and a
/// gRPC service.
#[derive(Clone, Copy, Debug)]
pub struct HybridMakeService<MakeWeb, Grpc> {
    pub make_web: MakeWeb,
    pub grpc: Grpc,
}

pub fn hybrid<MakeWeb, Grpc>(make_web: MakeWeb, grpc: Grpc) -> (r: HybridMakeService<MakeWeb, Grpc>)
    ensures
        r.make_web == make_web,
        r.grpc == grpc,
{
    HybridMakeService { make_web, grpc }
}

/// A web service being made, with the gRPC service that joins it once.
#[derive(Clone, Copy, Debug)]
pub struct HybridMakeServiceFuture<WebFuture, Grpc> {
    pub web_future: WebFuture,
    pub grpc: Option<Grpc>,
}

impl<WebFuture, Grpc> HybridMakeServiceFuture<WebFuture, Grpc> {
    /// Hands the gRPC service out; a second call finds none.
    pub fn take_grpc(&mut self) -> (r: Option<Grpc>)
        ensures
            r == old(self).grpc,
            final(self).grpc is None,
            final(self).web_future == old(self).web_future,
    {
        self.grpc.take()
    }
}

/// A web service and a gRPC service answering on one connection.
#[derive(Clone, Copy, Debug)]
pub struct HybridService<Web, Grpc> {
    pub web: Web,
    pub grpc: Grpc,
}

/// A response body from either side.
#[derive(Clone, Copy, Debug)]
pub enum HybridBody<WebBody, GrpcBody> {
    Web(WebBody),
    Grpc(GrpcBody),
}

/// A pending response from either side.
#[derive(Clone, Copy, Debug)]
pub enum HybridFuture<WebFuture, GrpcFuture> {
    Web(WebFuture),
    Grpc(GrpcFuture),
}

} // verus!
