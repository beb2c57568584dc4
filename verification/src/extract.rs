//! The decoder registry and the single-pass message dispatcher. One decoder
//! is registered per requested topic, chosen by the topic's schema name and
//! validated before any file is opened; each in-window message is routed to
//! its topic's decoder, and messages on unregistered topics are skipped.

use vstd::prelude::*;

use crate::cancel::CancelToken;
use crate::catalog::Topic;
use crate::codec::{
    decompress, decompressed, deserialize_compressed_image, deserialize_image,
    deserialize_pointcloud, deserialize_time, parse_compressed_image, parse_image,
    parse_pointcloud, parse_time_record,
};
use crate::container::MessageRecord;
use crate::errors::Error;
use crate::msg::{image_wf, Image, Time};
use crate::points::{
    cloud_wf, decode_elem, dt_size, dt_valid, lemma_cloud_view_fields, Datatype, PointCloud2,
    PointCloud2View, PointFieldView,
};
use crate::video::{Frame, VideoState};
use crate::window::{gate, Gate, Window};
use vstd::string::StringExecFns;

verus! {

/// The kind of decoder a schema name selects.
#[derive(Debug, Clone, Copy, PartialEq, Eq, Structural)]
pub enum Kind {
    /// Accumulate-then-decode compressed video.
    Video,
    /// Raw images, one per message.
    Image,
    /// Point clouds, one per message.
    Cloud,
    /// Scalar timestamps, one per message.
    Stamp,
}

/// The decoder kind a schema name selects, if it is one of the supported set.
pub open spec fn schema_kind(fmt: Seq<char>) -> Option<Kind> {
    if fmt == "sensor_msgs/msg/CompressedImage"@ {
        Some(Kind::Video)
    } else if fmt == "sensor_msgs/msg/Image"@ {
        Some(Kind::Image)
    } else if fmt == "sensor_msgs/msg/PointCloud2"@ {
        Some(Kind::Cloud)
    } else if fmt == "builtin_interfaces/msg/Time"@ {
        Some(Kind::Stamp)
    } else {
        None
    }
}

/// Decides [`schema_kind`] for a schema name.
pub fn kind_of_schema(fmt: &String) -> (r: Option<Kind>)
    ensures
        r == schema_kind(fmt@),
{
    if fmt.eq(&String::from_str("sensor_msgs/msg/CompressedImage")) {
        Some(Kind::Video)
    } else if fmt.eq(&String::from_str("sensor_msgs/msg/Image")) {
        Some(Kind::Image)
    } else if fmt.eq(&String::from_str("sensor_msgs/msg/PointCloud2")) {
        Some(Kind::Cloud)
    } else if fmt.eq(&String::from_str("builtin_interfaces/msg/Time")) {
        Some(Kind::Stamp)
    } else {
        None
    }
}

/// The first catalog position carrying the given topic name.
pub open spec fn catalog_find_from(cat: Seq<Topic>, name: Seq<char>, i: int) -> Option<int>
    decreases cat.len() - i when 0 <= i <= cat.len()
{
    if i < 0 || i >= cat.len() {
        None
    } else if cat[i].name@ == name {
        Some(i)
    } else {
        catalog_find_from(cat, name, i + 1)
    }
}

/// The first catalog position carrying the given topic name, if any.
pub open spec fn catalog_find(cat: Seq<Topic>, name: Seq<char>) -> Option<int> {
    catalog_find_from(cat, name, 0)
}

/// What registering one requested topic yields: its decoder kind, or the
/// error that rejects the whole run.
pub enum PlanOutcome {
    /// The topic exists and its schema selects this decoder kind.
    Select(Kind),
    /// The requested name is absent from the catalog.
    Absent,
    /// The topic exists but its schema (carried here) is unsupported.
    Unsupported(Seq<char>),
}

/// Whether a registration outcome selects a decoder.
pub open spec fn plan_ok(p: PlanOutcome) -> bool {
    match p {
        PlanOutcome::Select(_) => true,
        PlanOutcome::Absent => false,
        PlanOutcome::Unsupported(_) => false,
    }
}

/// The error owed for a failed registration outcome of the given topic name.
pub open spec fn err_for_plan(p: PlanOutcome, e: Error, name: Seq<char>) -> bool {
    match p {
        PlanOutcome::Select(_) => false,
        PlanOutcome::Absent => e matches Error::InvalidTopic(n) && n@ == name,
        PlanOutcome::Unsupported(f) => e matches Error::UnsupportedTopicFormat(s) && s@ == f,
    }
}

/// The registration outcome for one requested topic name.
pub open spec fn plan_one(cat: Seq<Topic>, name: Seq<char>) -> PlanOutcome {
    match catalog_find(cat, name) {
        None => PlanOutcome::Absent,
        Some(i) => match schema_kind(cat[i].format@) {
            Some(k) => PlanOutcome::Select(k),
            None => PlanOutcome::Unsupported(cat[i].format@),
        },
    }
}

/// Looks up a topic name in the catalog, scanning front to back.
fn catalog_find_exec(cat: &Vec<Topic>, name: &String) -> (r: Option<usize>)
    ensures
        match r {
            Some(i) => catalog_find(cat@, name@) == Some(i as int) && i < cat@.len(),
            None => catalog_find(cat@, name@) is None,
        },
{
    let n = cat.len();
    let mut i: usize = 0;
    while i < n
        invariant
            i <= n == cat@.len(),
            catalog_find(cat@, name@) == catalog_find_from(cat@, name@, i as int),
        decreases n - i,
    {
        if cat[i].name.eq(name) {
            return Some(i);
        }
        i = i + 1;
    }
    None
}

/// One registered decoder: the topic it serves, the kind its schema selected,
/// and the video accumulator (used only by the video kind).
#[derive(Debug, Clone)]
pub struct TopicDecoder {
    pub topic: String,
    pub kind: Kind,
    pub video: VideoState,
}

/// The dispatcher: an explicit ordered list of per-topic decoders built once
/// from the validated requested-topic list, and the time window of the run.
#[derive(Debug, Clone)]
pub struct Dispatcher {
    pub window: Window,
    pub decs: Vec<TopicDecoder>,
}

impl Dispatcher {
    /// Validates every requested topic against the catalog and builds one
    /// decoder per topic, in request order. Fails fast — before any file is
    /// opened — with `InvalidTopic` naming the first requested topic absent
    /// from the catalog, or `UnsupportedTopicFormat` carrying the schema name
    /// of the first requested topic whose schema selects no decoder.
    pub fn new(cat: &Vec<Topic>, requested: &Vec<String>, window: Window) -> (r: Result<
        Dispatcher,
        Error,
    >)
        ensures
            r is Ok <==> (forall|i: int|
                0 <= i < requested@.len() ==> plan_ok(
                    #[trigger] plan_one(cat@, requested@[i]@),
                )),
            r matches Ok(d) ==> {
                &&& d.window == window
                &&& d.decs@.len() == requested@.len()
                &&& forall|i: int|
                    0 <= i < requested@.len() ==> (#[trigger] d.decs@[i]).topic@
                        == requested@[i]@
                &&& forall|i: int|
                    0 <= i < requested@.len() ==> plan_one(cat@, requested@[i]@)
                        == PlanOutcome::Select((#[trigger] d.decs@[i]).kind)
                &&& forall|i: int|
                    0 <= i < requested@.len() ==> (#[trigger] d.decs@[i]).video.cache@.len()
                        == 0 && d.decs@[i].video.stamps@.len() == 0
            },
            r matches Err(e) ==> exists|i: int|
                {
                    &&& 0 <= i < requested@.len()
                    &&& forall|j: int|
                        0 <= j < i ==> plan_ok(#[trigger] plan_one(cat@, requested@[j]@))
                    &&& err_for_plan(plan_one(cat@, (#[trigger] requested@[i])@), e, requested@[i]@)
                },
    {
        let mut decs: Vec<TopicDecoder> = Vec::new();
        let n = requested.len();
        let mut i: usize = 0;
        while i < n
            invariant
                i <= n == requested@.len(),
                decs@.len() == i,
                forall|j: int|
                    0 <= j < i ==> (#[trigger] decs@[j]).topic@ == requested@[j]@,
                forall|j: int|
                    0 <= j < i ==> plan_one(cat@, requested@[j]@) == PlanOutcome::Select(
                        (#[trigger] decs@[j]).kind,
                    ),
                forall|j: int|
                    0 <= j < i ==> (#[trigger] decs@[j]).video.cache@.len() == 0
                        && decs@[j].video.stamps@.len() == 0,
            decreases n - i,
        {
            let name = &requested[i];
            proof {
                assert forall|j: int| 0 <= j < i implies plan_ok(
                    #[trigger] plan_one(cat@, requested@[j]@),
                ) by {
                    assert(plan_one(cat@, requested@[j]@) == PlanOutcome::Select(decs@[j].kind));
                }
            }
            let ci = match catalog_find_exec(cat, name) {
                Some(ci) => ci,
                None => {
                    proof {
                        assert(plan_one(cat@, requested@[i as int]@) == PlanOutcome::Absent);
                    }
                    return Err(Error::InvalidTopic(name.clone()));
                },
            };
            let kind = match kind_of_schema(&cat[ci].format) {
                Some(k) => k,
                None => {
                    proof {
                        assert(plan_one(cat@, requested@[i as int]@) == PlanOutcome::Unsupported(
                            cat@[ci as int].format@,
                        ));
                    }
                    return Err(Error::UnsupportedTopicFormat(cat[ci].format.clone()));
                },
            };
            decs.push(TopicDecoder { topic: name.clone(), kind, video: VideoState::new() });
            i = i + 1;
        }
        proof {
            assert forall|q: int| 0 <= q < requested@.len() implies plan_ok(
                #[trigger] plan_one(cat@, requested@[q]@),
            ) by {
                assert(plan_one(cat@, requested@[q]@) == PlanOutcome::Select(decs@[q].kind));
            }
        }
        Ok(Dispatcher { window, decs })
    }
}

/// The strongly-typed numeric columns this decoder requires of every cloud:
/// per point, the first element of the fields named `x`, `y`, `z` and
/// `intensity`.
#[derive(Debug, Clone)]
pub struct CloudColumns {
    pub x: Vec<Datatype>,
    pub y: Vec<Datatype>,
    pub z: Vec<Datatype>,
    pub intensity: Vec<Datatype>,
}

/// The first field position whose datatype code is unknown.
pub open spec fn first_bad_dt_from(fields: Seq<PointFieldView>, i: int) -> Option<int>
    decreases fields.len() - i when 0 <= i <= fields.len()
{
    if i < 0 || i >= fields.len() {
        None
    } else if !dt_valid(fields[i].datatype) {
        Some(i)
    } else {
        first_bad_dt_from(fields, i + 1)
    }
}

/// The first field position carrying the given name.
pub open spec fn field_find_from(fields: Seq<PointFieldView>, name: Seq<char>, i: int) -> Option<
    int,
>
    decreases fields.len() - i when 0 <= i <= fields.len()
{
    if i < 0 || i >= fields.len() {
        None
    } else if fields[i].name == name {
        Some(i)
    } else {
        field_find_from(fields, name, i + 1)
    }
}

/// The column of one field across all points: per point, the first element
/// of the field's window, big-endian iff the cloud says so.
pub open spec fn col_of(c: PointCloud2View, fi: int) -> Seq<Datatype> {
    Seq::new(
        (c.width * c.height) as nat,
        |p: int| decode_elem(
            c.fields[fi].datatype,
            c.is_bigendian != 0,
            c.data,
            c.point_step * p + c.fields[fi].offset,
        ),
    )
}

/// The outcome of extracting the required columns from a cloud.
pub enum ColsOutcome {
    /// A field's datatype code (carried here) is outside the known table.
    BadDatatype(u8),
    /// The cloud's declared geometry does not hold together.
    Geometry,
    /// A required column name (carried here) is absent.
    Missing(Seq<char>),
    /// All four required columns, index-aligned with the points.
    Cols { x: Seq<Datatype>, y: Seq<Datatype>, z: Seq<Datatype>, intensity: Seq<Datatype> },
}

/// Finds one required column: present, non-empty, and decoded, in that order
/// of failure.
pub open spec fn one_col(c: PointCloud2View, name: Seq<char>) -> Result<Seq<Datatype>, ColsOutcome> {
    match field_find_from(c.fields, name, 0) {
        None => Err(ColsOutcome::Missing(name)),
        Some(fi) => if c.fields[fi].count == 0 {
            Err(ColsOutcome::Geometry)
        } else {
            Ok(col_of(c, fi))
        },
    }
}

/// The columns the point-cloud decoder extracts, or the first error in its
/// fixed checking order: unknown datatype, broken geometry, then the four
/// required names in turn.
pub open spec fn cloud_columns_spec(c: PointCloud2View) -> ColsOutcome {
    match first_bad_dt_from(c.fields, 0) {
        Some(i) => ColsOutcome::BadDatatype(c.fields[i].datatype),
        None => if !cloud_wf(c) {
            ColsOutcome::Geometry
        } else {
            match one_col(c, "x"@) {
                Err(e) => e,
                Ok(x) => match one_col(c, "y"@) {
                    Err(e) => e,
                    Ok(y) => match one_col(c, "z"@) {
                        Err(e) => e,
                        Ok(z) => match one_col(c, "intensity"@) {
                            Err(e) => e,
                            Ok(intensity) => ColsOutcome::Cols { x, y, z, intensity },
                        },
                    },
                },
            }
        },
    }
}

/// Scans for the first field with an unknown datatype code.
fn first_bad_dt_exec(cloud: &PointCloud2) -> (r: Option<usize>)
    ensures
        match r {
            Some(i) => first_bad_dt_from(cloud@.fields, 0) == Some(i as int) && i
                < cloud.fields@.len(),
            None => first_bad_dt_from(cloud@.fields, 0) is None,
        },
{
    let n = cloud.fields.len();
    let mut i: usize = 0;
    while i < n
        invariant
            i <= n == cloud.fields@.len() == cloud@.fields.len(),
            first_bad_dt_from(cloud@.fields, 0) == first_bad_dt_from(cloud@.fields, i as int),
        decreases n - i,
    {
        proof {
            lemma_cloud_view_fields(cloud);
        }
        let f = &cloud.fields[i];
        if f.datatype < 1 || f.datatype > 8 {
            return Some(i);
        }
        i = i + 1;
    }
    None
}

/// Scans for the first field carrying the given name.
fn field_find_exec(cloud: &PointCloud2, name: &String) -> (r: Option<usize>)
    ensures
        match r {
            Some(i) => field_find_from(cloud@.fields, name@, 0) == Some(i as int) && i
                < cloud.fields@.len(),
            None => field_find_from(cloud@.fields, name@, 0) is None,
        },
{
    let n = cloud.fields.len();
    let mut i: usize = 0;
    while i < n
        invariant
            i <= n == cloud.fields@.len() == cloud@.fields.len(),
            field_find_from(cloud@.fields, name@, 0) == field_find_from(
                cloud@.fields,
                name@,
                i as int,
            ),
        decreases n - i,
    {
        proof {
            lemma_cloud_view_fields(cloud);
        }
        if cloud.fields[i].name.eq(name) {
            return Some(i);
        }
        i = i + 1;
    }
    None
}

/// Decodes the column of field `fi` across every point of the cloud.
fn extract_column(cloud: &PointCloud2, fi: usize) -> (r: Vec<Datatype>)
    requires
        cloud.wf(),
        fi < cloud.fields@.len(),
        cloud@.fields[fi as int].count >= 1,
        cloud@.width * cloud@.height <= usize::MAX,
    ensures
        r@ == col_of(cloud@, fi as int),
{
    proof {
        lemma_cloud_view_fields(cloud);
    }
    let big = cloud.is_bigendian != 0;
    let np = cloud.len();
    let dlen = cloud.data.len();
    let f = &cloud.fields[fi];
    let size = f.size();
    let mut r: Vec<Datatype> = Vec::new();
    let mut p: usize = 0;
    while p < np
        invariant
            cloud.wf(),
            fi < cloud.fields@.len(),
            np == cloud@.width * cloud@.height,
            np <= usize::MAX,
            dlen == cloud.data@.len(),
            big == (cloud@.is_bigendian != 0),
            f@ == cloud@.fields[fi as int],
            dt_valid(f.datatype),
            size == dt_size(f.datatype),
            1 <= f.count,
            f.offset + f.count * size <= cloud.point_step,
            p <= np,
            r@.len() == p,
            forall|q: int|
                0 <= q < p ==> #[trigger] r@[q] == decode_elem(
                    cloud@.fields[fi as int].datatype,
                    cloud@.is_bigendian != 0,
                    cloud@.data,
                    cloud@.point_step * q + cloud@.fields[fi as int].offset,
                ),
        decreases np - p,
    {
        proof {
            assert(cloud.point_step * (p + 1) <= cloud.point_step * (cloud@.width
                * cloud@.height)) by (nonlinear_arith)
                requires
                    p < cloud@.width * cloud@.height,
                    cloud.point_step >= 0,
            ;
            assert(cloud.point_step * (p + 1) == cloud.point_step * p + cloud.point_step)
                by (nonlinear_arith);
            assert(size <= f.count * size) by (nonlinear_arith)
                requires
                    1 <= f.count,
                    size >= 0,
            ;
        }
        let base = cloud.point_step as usize * p;
        let pos = base + f.offset as usize;
        let v = crate::points::decode_elem_at(f.datatype, big, &cloud.data, pos);
        r.push(v);
        p = p + 1;
    }
    proof {
        assert(r@ =~= col_of(cloud@, fi as int));
    }
    r
}

/// A well-formed cloud with one field of at least one element has a positive
/// point stride, so its point count is bounded by its data length.
proof fn lemma_cloud_points_bounded(cloud: &PointCloud2, fi: int)
    requires
        cloud.wf(),
        0 <= fi < cloud@.fields.len(),
        cloud@.fields[fi].count >= 1,
        dt_valid(cloud@.fields[fi].datatype),
    ensures
        cloud@.width * cloud@.height <= usize::MAX,
{
    let f = cloud@.fields[fi];
    assert(f.offset + f.count * dt_size(f.datatype) <= cloud@.point_step);
    assert(f.count * dt_size(f.datatype) >= 1) by (nonlinear_arith)
        requires
            f.count >= 1,
            dt_size(f.datatype) >= 1,
    ;
    assert(cloud@.point_step >= 1);
    assert(cloud@.width * cloud@.height <= cloud@.point_step * (cloud@.width * cloud@.height))
        by (nonlinear_arith)
        requires
            cloud@.point_step >= 1,
            cloud@.width * cloud@.height >= 0,
    ;
    assert(cloud.data@.len() <= usize::MAX) by {
        assert(cloud.data@.len() == vstd::std_specs::vec::spec_vec_len(&cloud.data));
    }
}

/// Extracts the four required columns of a cloud, checking in order: every
/// field's datatype is known, the declared geometry holds together, and each
/// of `x`, `y`, `z`, `intensity` is present and non-empty.
pub fn decode_cloud_columns(cloud: &PointCloud2) -> (r: Result<CloudColumns, Error>)
    ensures
        match r {
            Ok(cols) => cloud_columns_spec(cloud@) == (ColsOutcome::Cols {
                x: cols.x@,
                y: cols.y@,
                z: cols.z@,
                intensity: cols.intensity@,
            }),
            Err(e) => match cloud_columns_spec(cloud@) {
                ColsOutcome::BadDatatype(c) => e == Error::InvalidDatatype(c),
                ColsOutcome::Geometry => e == Error::Geometry,
                ColsOutcome::Missing(n) => e matches Error::MissingField(s) && s@ == n,
                ColsOutcome::Cols { .. } => false,
            },
        },
{
    proof {
        lemma_cloud_view_fields(cloud);
    }
    if let Some(i) = first_bad_dt_exec(cloud) {
        return Err(Error::InvalidDatatype(cloud.fields[i].datatype));
    }
    if !cloud.check_wf() {
        return Err(Error::Geometry);
    }
    let name_x = String::from_str("x");
    let name_y = String::from_str("y");
    let name_z = String::from_str("z");
    let name_i = String::from_str("intensity");
    let xi = match field_find_exec(cloud, &name_x) {
        Some(fi) => fi,
        None => {
            return Err(Error::MissingField(name_x));
        },
    };
    if cloud.fields[xi].count == 0 {
        return Err(Error::Geometry);
    }
    proof {
        lemma_cloud_points_bounded(cloud, xi as int);
    }
    let x = extract_column(cloud, xi);
    let yi = match field_find_exec(cloud, &name_y) {
        Some(fi) => fi,
        None => {
            return Err(Error::MissingField(name_y));
        },
    };
    if cloud.fields[yi].count == 0 {
        return Err(Error::Geometry);
    }
    proof {
        lemma_cloud_points_bounded(cloud, yi as int);
    }
    let y = extract_column(cloud, yi);
    let zi = match field_find_exec(cloud, &name_z) {
        Some(fi) => fi,
        None => {
            return Err(Error::MissingField(name_z));
        },
    };
    if cloud.fields[zi].count == 0 {
        return Err(Error::Geometry);
    }
    proof {
        lemma_cloud_points_bounded(cloud, zi as int);
    }
    let z = extract_column(cloud, zi);
    let ii = match field_find_exec(cloud, &name_i) {
        Some(fi) => fi,
        None => {
            return Err(Error::MissingField(name_i));
        },
    };
    if cloud.fields[ii].count == 0 {
        return Err(Error::Geometry);
    }
    proof {
        lemma_cloud_points_bounded(cloud, ii as int);
    }
    let intensity = extract_column(cloud, ii);
    Ok(CloudColumns { x, y, z, intensity })
}

/// The first registered decoder serving the given topic.
pub open spec fn reg_find_from(decs: Seq<TopicDecoder>, topic: Seq<char>, i: int) -> Option<int>
    decreases decs.len() - i when 0 <= i <= decs.len()
{
    if i < 0 || i >= decs.len() {
        None
    } else if decs[i].topic@ == topic {
        Some(i)
    } else {
        reg_find_from(decs, topic, i + 1)
    }
}

/// The first registered decoder serving the given topic, if any.
pub open spec fn reg_find(decs: Seq<TopicDecoder>, topic: Seq<char>) -> Option<int> {
    reg_find_from(decs, topic, 0)
}

/// Scans the registry for the decoder serving a topic.
fn reg_find_exec(decs: &Vec<TopicDecoder>, topic: &String) -> (r: Option<usize>)
    ensures
        match r {
            Some(i) => reg_find(decs@, topic@) == Some(i as int) && i < decs@.len(),
            None => reg_find(decs@, topic@) is None,
        },
{
    let n = decs.len();
    let mut i: usize = 0;
    while i < n
        invariant
            i <= n == decs@.len(),
            reg_find(decs@, topic@) == reg_find_from(decs@, topic@, i as int),
        decreases n - i,
    {
        if decs[i].topic.eq(topic) {
            return Some(i);
        }
        i = i + 1;
    }
    None
}

/// What one routed message produced.
#[derive(Debug, Clone)]
pub enum Routed {
    /// Coded bytes and a timestamp were appended to the topic's accumulator.
    Video,
    /// A decoded raw image.
    Image(Image),
    /// A decoded point cloud and its four required columns.
    Cloud(PointCloud2, CloudColumns),
    /// A decoded scalar timestamp.
    Stamp(Time),
}

/// What became of one message offered to the dispatcher.
#[derive(Debug, Clone)]
pub enum StepOutcome {
    /// Published before the window: skipped.
    SkippedBefore,
    /// Published past the window: the whole run must stop here.
    Stopped,
    /// In the window, but no decoder serves its topic: skipped.
    NoDecoder,
    /// Routed to its topic's decoder, which produced this.
    Routed(Routed),
}

/// Appends a copy of `src` to `dst`.
fn append_bytes(dst: &mut Vec<u8>, src: &Vec<u8>)
    ensures
        final(dst)@ == old(dst)@ + src@,
{
    let n = src.len();
    let mut i: usize = 0;
    while i < n
        invariant
            i <= n == src@.len(),
            dst@ == old(dst)@ + src@.subrange(0, i as int),
        decreases n - i,
    {
        dst.push(src[i]);
        proof {
            assert(old(dst)@ + src@.subrange(0, i as int) + seq![src@[i as int]] =~= old(dst)@
                + src@.subrange(0, i + 1));
        }
        i = i + 1;
    }
    proof {
        assert(src@.subrange(0, n as int) =~= src@);
    }
}

/// The video accumulator of decoder `j` took the coded bytes and the publish
/// time, and nothing else of the dispatcher moved.
pub open spec fn video_appended(
    pre: Dispatcher,
    post: Dispatcher,
    j: int,
    data: Seq<u8>,
    t: u64,
) -> bool {
    &&& post.window == pre.window
    &&& post.decs@.len() == pre.decs@.len()
    &&& forall|k: int| 0 <= k < pre.decs@.len() && k != j ==> post.decs@[k] == pre.decs@[k]
    &&& post.decs@[j].topic == pre.decs@[j].topic
    &&& post.decs@[j].kind == pre.decs@[j].kind
    &&& post.decs@[j].video.cache@ == pre.decs@[j].video.cache@ + data
    &&& post.decs@[j].video.stamps@ == pre.decs@[j].video.stamps@.push(t)
}

/// What a message routed to decoder `j` must yield: the payload is
/// decompressed, deserialized to the record the decoder's kind expects, and
/// handed on, every failure aborting with its own error and touching nothing.
pub open spec fn routed_post(
    pre: Dispatcher,
    post: Dispatcher,
    m: MessageRecord,
    j: int,
    r: Result<StepOutcome, Error>,
) -> bool {
    match decompressed(m.data@) {
        None => r matches Err(e) && e matches Error::Decompress(_) && post == pre,
        Some(b) => match pre.decs@[j].kind {
            Kind::Stamp => match parse_time_record(b) {
                None => r matches Err(e) && e == Error::Codec && post == pre,
                Some(t) => r matches Ok(o) && o == StepOutcome::Routed(Routed::Stamp(t)) && post
                    == pre,
            },
            Kind::Image => match parse_image(b) {
                None => r matches Err(e) && e == Error::Codec && post == pre,
                Some(v) => if !image_wf(v) {
                    r matches Err(e) && e == Error::Geometry && post == pre
                } else {
                    r matches Ok(o) && (o matches StepOutcome::Routed(rt) && rt matches
                        Routed::Image(img) && img@ == v) && post == pre
                },
            },
            Kind::Cloud => match parse_pointcloud(b) {
                None => r matches Err(e) && e == Error::Codec && post == pre,
                Some(v) => match cloud_columns_spec(v) {
                    ColsOutcome::BadDatatype(c) => r matches Err(e) && e == Error::InvalidDatatype(
                        c,
                    ) && post == pre,
                    ColsOutcome::Geometry => r matches Err(e) && e == Error::Geometry && post
                        == pre,
                    ColsOutcome::Missing(nm) => r matches Err(e) && (e matches Error::MissingField(
                        s,
                    ) && s@ == nm) && post == pre,
                    ColsOutcome::Cols { x, y, z, intensity } => r matches Ok(o) && (o matches
                        StepOutcome::Routed(rt) && rt matches Routed::Cloud(pc, cols) && pc@ == v
                        && cols.x@ == x && cols.y@ == y && cols.z@ == z && cols.intensity@
                        == intensity) && post == pre,
                },
            },
            Kind::Video => match parse_compressed_image(b) {
                None => r matches Err(e) && e == Error::Codec && post == pre,
                Some(v) => r matches Ok(o) && o == StepOutcome::Routed(Routed::Video)
                    && video_appended(pre, post, j, v.data, m.publish_time),
            },
        },
    }
}

/// The decode error a decoder of the given kind owes for a payload, if the
/// payload fails: the dual, over plain views, of the error cases of
/// [`routed_post`]. Kept opaque so that callers shuffling the predicate
/// around need not unfold the whole parse chain.
#[verifier::opaque]
pub open spec fn step_error(kind: Kind, data: Seq<u8>, e: Error) -> bool {
    match decompressed(data) {
        None => e matches Error::Decompress(_),
        Some(b) => match kind {
            Kind::Stamp => parse_time_record(b) is None && e == Error::Codec,
            Kind::Image => match parse_image(b) {
                None => e == Error::Codec,
                Some(v) => !image_wf(v) && e == Error::Geometry,
            },
            Kind::Cloud => match parse_pointcloud(b) {
                None => e == Error::Codec,
                Some(v) => match cloud_columns_spec(v) {
                    ColsOutcome::BadDatatype(c) => e == Error::InvalidDatatype(c),
                    ColsOutcome::Geometry => e == Error::Geometry,
                    ColsOutcome::Missing(nm) => e matches Error::MissingField(s) && s@ == nm,
                    ColsOutcome::Cols { .. } => false,
                },
            },
            Kind::Video => parse_compressed_image(b) is None && e == Error::Codec,
        },
    }
}

/// What a decoder of the given kind owes for a payload it accepts: the dual,
/// over plain views, of the success cases of [`routed_post`]. Kept opaque so
/// that callers shuffling the predicate around need not unfold the whole
/// parse chain.
#[verifier::opaque]
pub open spec fn routed_matches(kind: Kind, data: Seq<u8>, rt: Routed) -> bool {
    match decompressed(data) {
        None => false,
        Some(b) => match kind {
            Kind::Stamp => rt matches Routed::Stamp(t) && parse_time_record(b) == Some(t),
            Kind::Image => rt matches Routed::Image(img) && parse_image(b) == Some(img@)
                && image_wf(img@),
            Kind::Cloud => rt matches Routed::Cloud(pc, cols) && parse_pointcloud(b) == Some(pc@)
                && cloud_columns_spec(pc@) == (ColsOutcome::Cols {
                x: cols.x@,
                y: cols.y@,
                z: cols.z@,
                intensity: cols.intensity@,
            }),
            Kind::Video => rt matches Routed::Video && parse_compressed_image(b) is Some,
        },
    }
}

/// Under [`routed_post`], an `Ok` outcome is always a routing, and it
/// carries exactly what the decoder's kind owes for the payload.
pub proof fn lemma_routed_ok(
    pre: Dispatcher,
    post: Dispatcher,
    m: MessageRecord,
    j: int,
    o: StepOutcome,
)
    requires
        routed_post(pre, post, m, j, Ok(o)),
    ensures
        o matches StepOutcome::Routed(rt) && routed_matches(pre.decs@[j].kind, m@.data, rt),
{
    reveal(routed_matches);
    assert(m@.data == m.data@);
}

/// Under [`routed_post`], an `Err` outcome is exactly the decode error the
/// decoder's kind owes for the payload.
pub proof fn lemma_routed_err(pre: Dispatcher, post: Dispatcher, m: MessageRecord, j: int, e: Error)
    requires
        routed_post(pre, post, m, j, Err(e)),
    ensures
        step_error(pre.decs@[j].kind, m@.data, e),
{
    reveal(step_error);
    assert(m@.data == m.data@);
}

/// A successful registry lookup lands inside the registry, on the topic
/// looked up.
pub proof fn lemma_reg_find_range(decs: Seq<TopicDecoder>, topic: Seq<char>, i: int)
    requires
        0 <= i <= decs.len(),
    ensures
        reg_find_from(decs, topic, i) matches Some(j) ==> i <= j < decs.len() && decs[j].topic@
            == topic,
    decreases decs.len() - i,
{
    if i < decs.len() {
        lemma_reg_find_range(decs, topic, i + 1);
    }
}

/// Two registries serve the same topics with the same decoder kinds,
/// position by position.
pub open spec fn reg_shape_eq(d1: Seq<TopicDecoder>, d2: Seq<TopicDecoder>) -> bool {
    &&& d1.len() == d2.len()
    &&& forall|k: int|
        0 <= k < d1.len() ==> (#[trigger] d1[k]).topic@ == d2[k].topic@ && d1[k].kind
            == d2[k].kind
}

/// Registries of the same shape resolve every topic to the same position.
pub proof fn lemma_reg_find_shape(d1: Seq<TopicDecoder>, d2: Seq<TopicDecoder>, topic: Seq<char>, i: int)
    requires
        reg_shape_eq(d1, d2),
        0 <= i <= d1.len(),
    ensures
        reg_find_from(d1, topic, i) == reg_find_from(d2, topic, i),
    decreases d1.len() - i,
{
    if i < d1.len() {
        lemma_reg_find_shape(d1, d2, topic, i + 1);
    }
}

impl Dispatcher {
    /// Offers one message to the dispatcher: polls cancellation first, then
    /// applies the window, then routes to the decoder registered for the
    /// topic, if any. Decode failures abort the whole run with their error;
    /// nothing is retried or skipped-and-continued.
    #[verifier::rlimit(80)]
    pub fn on_message(&mut self, m: &MessageRecord, cancelled: bool) -> (r: Result<
        StepOutcome,
        Error,
    >)
        ensures
            cancelled ==> (r matches Err(e) && e == Error::Interrupted && *final(self) == *old(
                self,
            )),
            !cancelled && gate(old(self).window, m.publish_time) == Gate::Before ==> (r matches Ok(
                o,
            ) && o == StepOutcome::SkippedBefore && *final(self) == *old(self)),
            !cancelled && gate(old(self).window, m.publish_time) == Gate::After ==> (r matches Ok(
                o,
            ) && o == StepOutcome::Stopped && *final(self) == *old(self)),
            !cancelled && gate(old(self).window, m.publish_time) == Gate::Inside ==> (match
                reg_find(old(self).decs@, m.topic@) {
                None => r matches Ok(o) && o == StepOutcome::NoDecoder && *final(self) == *old(
                    self,
                ),
                Some(j) => routed_post(*old(self), *final(self), *m, j, r),
            }),
            final(self).window == old(self).window,
    {
        if cancelled {
            return Err(Error::Interrupted);
        }
        match self.window.classify(m.publish_time) {
            Gate::Before => {
                return Ok(StepOutcome::SkippedBefore);
            },
            Gate::After => {
                return Ok(StepOutcome::Stopped);
            },
            Gate::Inside => {},
        }
        let j = match reg_find_exec(&self.decs, &m.topic) {
            Some(j) => j,
            None => {
                return Ok(StepOutcome::NoDecoder);
            },
        };
        let b = match decompress(&m.data) {
            Ok(b) => b,
            Err(e) => {
                return Err(e);
            },
        };
        match self.decs[j].kind {
            Kind::Stamp => {
                match deserialize_time(&b) {
                    Ok(t) => Ok(StepOutcome::Routed(Routed::Stamp(t))),
                    Err(e) => Err(e),
                }
            },
            Kind::Image => {
                let img = match deserialize_image(&b) {
                    Ok(img) => img,
                    Err(e) => {
                        return Err(e);
                    },
                };
                proof {
                    assert(img.step as u64 * img.height as u64 <= 0xffff_ffffu64 * 0xffff_ffffu64)
                        by (nonlinear_arith)
                        requires
                            img.step <= 0xffff_ffffu64 && img.height <= 0xffff_ffffu64,
                    ;
                }
                if (img.data.len() as u64) < img.step as u64 * img.height as u64 {
                    return Err(Error::Geometry);
                }
                Ok(StepOutcome::Routed(Routed::Image(img)))
            },
            Kind::Cloud => {
                let pc = match deserialize_pointcloud(&b) {
                    Ok(pc) => pc,
                    Err(e) => {
                        return Err(e);
                    },
                };
                match decode_cloud_columns(&pc) {
                    Ok(cols) => Ok(StepOutcome::Routed(Routed::Cloud(pc, cols))),
                    Err(e) => Err(e),
                }
            },
            Kind::Video => {
                let ci = match deserialize_compressed_image(&b) {
                    Ok(ci) => ci,
                    Err(e) => {
                        return Err(e);
                    },
                };
                let data = ci.data;
                let td = &mut self.decs[j];
                append_bytes(&mut td.video.cache, &data);
                td.video.stamps.push(m.publish_time);
                Ok(StepOutcome::Routed(Routed::Video))
            },
        }
    }
}

/// The frames drained for one registered topic.
#[derive(Debug, Clone)]
pub struct TopicFrames {
    pub topic: String,
    pub frames: Vec<Frame>,
}

impl Dispatcher {
    /// Finalizes every decoder exactly once, after the last message. Only the
    /// video decoders hold state: each drains its accumulated stream into
    /// frames named by its aligned timestamps; the rest yield nothing.
    pub fn finish(&self, token: &CancelToken) -> (r: Result<Vec<TopicFrames>, Error>)
        ensures
            r matches Ok(out) ==> {
                &&& out@.len() == self.decs@.len()
                &&& forall|k: int|
                    0 <= k < out@.len() ==> (#[trigger] out@[k]).topic@ == self.decs@[k].topic@
                &&& forall|k: int|
                    0 <= k < out@.len() && self.decs@[k].kind != Kind::Video ==> (
                    #[trigger] out@[k]).frames@.len() == 0
                &&& forall|k: int|
                    0 <= k < out@.len() && self.decs@[k].kind == Kind::Video ==> {
                        &&& (#[trigger] out@[k]).frames@.len()
                            <= self.decs@[k].video.stamps@.len()
                        &&& forall|q: int|
                            0 <= q < out@[k].frames@.len() ==> (#[trigger] out@[k].frames@[q]).stamp
                                == self.decs@[k].video.stamps@[q]
                        &&& forall|q: int|
                            0 <= q < out@[k].frames@.len() ==> (#[trigger] out@[k].frames@[q]).rgb@.len()
                                == 3 * out@[k].frames@[q].width * out@[k].frames@[q].height
                    }
            },
            r matches Err(e) ==> (e == Error::Timestamp || e == Error::Interrupted
                || e matches Error::H264(_)),
            (forall|k: int|
                0 <= k < self.decs@.len() ==> (#[trigger] self.decs@[k]).kind != Kind::Video)
                ==> r is Ok,
    {
        let mut out: Vec<TopicFrames> = Vec::new();
        let n = self.decs.len();
        let mut k: usize = 0;
        while k < n
            invariant
                n == self.decs@.len(),
                k <= n,
                out@.len() == k,
                forall|q: int|
                    0 <= q < k ==> (#[trigger] out@[q]).topic@ == self.decs@[q].topic@,
                forall|q: int|
                    0 <= q < k && self.decs@[q].kind != Kind::Video ==> (
                    #[trigger] out@[q]).frames@.len() == 0,
                forall|q: int|
                    0 <= q < k && self.decs@[q].kind == Kind::Video ==> {
                        &&& (#[trigger] out@[q]).frames@.len()
                            <= self.decs@[q].video.stamps@.len()
                        &&& forall|p: int|
                            0 <= p < out@[q].frames@.len() ==> (#[trigger] out@[q].frames@[p]).stamp
                                == self.decs@[q].video.stamps@[p]
                        &&& forall|p: int|
                            0 <= p < out@[q].frames@.len() ==> (#[trigger] out@[q].frames@[p]).rgb@.len()
                                == 3 * out@[q].frames@[p].width * out@[q].frames@[p].height
                    },
            decreases n - k,
        {
            let td = &self.decs[k];
            let frames: Vec<Frame> = match td.kind {
                Kind::Video => {
                    match td.video.drain(token) {
                        Ok(fs) => fs,
                        Err(e) => {
                            return Err(e);
                        },
                    }
                },
                _ => Vec::new(),
            };
            out.push(TopicFrames { topic: td.topic.clone(), frames });
            k = k + 1;
        }
        Ok(out)
    }
}

} // verus!
