use packed_fb::{
    buffer_size, Buffered, Codec, Flushable, Flusher, Flushing, NoopFlusher, Pixel, PixelSink,
    Point, Rectangle, RotateAngle, Size,
};

#[derive(Debug, PartialEq)]
struct Fail;

struct Recorder {
    size: Size,
    writes: Vec<Vec<Pixel>>,
    flushes: usize,
    fail_write: bool,
    fail_flush: bool,
}

impl Recorder {
    fn new(width: u32, height: u32) -> Self {
        Recorder {
            size: Size::new(width, height),
            writes: Vec::new(),
            flushes: 0,
            fail_write: false,
            fail_flush: false,
        }
    }
}

impl PixelSink for Recorder {
    type Error = Fail;

    fn size(&self) -> Size {
        self.size
    }

    fn draw_iter(&mut self, pixels: &[Pixel]) -> Result<(), Fail> {
        if self.fail_write {
            return Err(Fail);
        }
        self.writes.push(pixels.to_vec());
        Ok(())
    }
}

impl Flushable for Recorder {
    fn flush(&mut self) -> Result<(), Fail> {
        if self.fail_flush {
            return Err(Fail);
        }
        self.flushes += 1;
        Ok(())
    }
}

fn buffered(width: u32, height: u32, native_bits: u32) -> Buffered<Recorder> {
    let codec = Codec::for_native_bits(native_bits);
    let n = buffer_size(codec, Size::new(width, height));
    Buffered::new(vec![0; n], vec![0; n], Recorder::new(width, height), codec).unwrap()
}

#[test]
fn four_by_one_eight_bits() {
    let mut b = buffered(4, 1, 8);
    b.draw_iter(&[Pixel(Point::new(2, 0), 0x41)]);
    assert!(b.target().writes.is_empty());
    assert_eq!(b.flush(), Ok(1));
    assert_eq!(b.target().writes, vec![vec![Pixel(Point::new(2, 0), 0x41)]]);
    assert_eq!(b.flush(), Ok(0));
    assert_eq!(b.target().writes[1], Vec::<Pixel>::new());
    assert_eq!(b.target().flushes, 2);
}

#[test]
fn flush_sends_exactly_the_differing_pixels() {
    let mut b = buffered(8, 4, 2);
    b.fill_solid(&Rectangle::new(Point::new(2, 1), Size::new(3, 2)), 3);
    b.draw_iter(&[Pixel(Point::new(0, 0), 1), Pixel(Point::new(0, 0), 0)]);
    b.fill_contiguous(&Rectangle::new(Point::new(6, 3), Size::new(2, 1)), &[2, 0]);
    assert_eq!(b.flush(), Ok(7));
    let sent = &b.target().writes[0];
    let mut want = Vec::new();
    for y in 1..3 {
        for x in 2..5 {
            want.push(Pixel(Point::new(x, y), 3));
        }
    }
    want.push(Pixel(Point::new(6, 3), 2));
    assert_eq!(sent, &want);
    assert_eq!(b.reference().as_bytes(), b.current().as_bytes());
}

#[test]
fn redrawing_same_colors_sends_nothing() {
    let mut b = buffered(8, 1, 1);
    b.draw_iter(&[Pixel(Point::new(1, 0), 1)]);
    assert_eq!(b.flush(), Ok(1));
    b.draw_iter(&[Pixel(Point::new(1, 0), 1)]);
    b.clear(0);
    b.draw_iter(&[Pixel(Point::new(1, 0), 1)]);
    assert_eq!(b.flush(), Ok(0));
    assert!(b.target().writes[1].is_empty());
}

#[test]
fn failed_write_leaves_reference_ahead() {
    let mut b = buffered(4, 1, 8);
    b.clear(9);
    let mut failing = Recorder::new(4, 1);
    failing.fail_write = true;
    let codec = Codec::for_native_bits(8);
    let mut c = Buffered::new(vec![0; 4], vec![0; 4], failing, codec).unwrap();
    c.clear(9);
    assert_eq!(c.flush(), Err(Fail));
    assert_eq!(c.reference().as_bytes(), &[9, 9, 9, 9][..]);
    assert_eq!(b.flush(), Ok(4));
}

#[test]
fn failed_commit_is_reported() {
    let mut sink = Recorder::new(4, 1);
    sink.fail_flush = true;
    let codec = Codec::for_native_bits(8);
    let mut b = Buffered::new(vec![0; 4], vec![0; 4], sink, codec).unwrap();
    b.draw_iter(&[Pixel(Point::new(0, 0), 1)]);
    assert_eq!(b.flush(), Err(Fail));
    assert_eq!(b.target().writes.len(), 1);
}

#[test]
fn invalidate_resends_everything() {
    let mut b = buffered(8, 2, 1);
    b.invalidate();
    assert_eq!(b.flush(), Ok(16));
    assert_eq!(b.target().writes[0].len(), 16);
    assert_eq!(b.flush(), Ok(0));
}

#[test]
fn buffered_rejects_wrong_storage() {
    let codec = Codec::for_native_bits(1);
    let r = Buffered::new(vec![0; 1], vec![0; 2], Recorder::new(8, 2), codec);
    assert_eq!(r.err(), Some(packed_fb::FbError::BufferSize));
    let r = Buffered::with_size(vec![0; 2], vec![0; 2], Recorder::new(8, 2), Size::new(8, 2), codec);
    assert!(r.is_ok());
    assert_eq!(r.ok().unwrap().size(), Size::new(8, 2));
}

#[test]
fn changes_lists_without_sending() {
    let mut b = buffered(4, 1, 8);
    b.draw_iter(&[Pixel(Point::new(3, 0), 2)]);
    assert_eq!(b.changes(), vec![Pixel(Point::new(3, 0), 2)]);
    assert!(b.target().writes.is_empty());
    assert_eq!(b.flush(), Ok(0));
}

struct Counting(usize);

impl Flusher<Recorder> for Counting {
    fn flush_parent(&mut self, parent: &mut Recorder) -> Result<(), Fail> {
        self.0 += 1;
        parent.flushes += 10;
        Ok(())
    }
}

#[test]
fn flushing_calls_its_flusher() {
    let mut f = Flushing::new(Recorder::new(2, 2), Counting(0));
    assert_eq!(PixelSink::size(&f), Size::new(2, 2));
    f.draw_iter(&[Pixel(Point::new(1, 1), 1)]).unwrap();
    f.flush().unwrap();
    assert_eq!(f.parent().flushes, 10);
    assert_eq!(f.parent().writes.len(), 1);
    let mut n = Flushing::noop(f.into_parent());
    assert_eq!(n.flush(), Ok(()));
    assert_eq!(n.parent().flushes, 10);
}

#[test]
fn double_buffer_over_flushing_target() {
    let codec = Codec::for_native_bits(1);
    let target = Flushing::new(Recorder::new(8, 1), NoopFlusher);
    let mut b = Buffered::new(vec![0; 1], vec![0; 1], target, codec).unwrap();
    b.draw_iter(&[Pixel(Point::new(7, 0), 1)]);
    assert_eq!(b.flush(), Ok(1));
    assert_eq!(b.target().parent().writes[0], vec![Pixel(Point::new(7, 0), 1)]);
}

#[test]
fn rotate_points() {
    let pdim = Rectangle::new(Point::new(0, 0), Size::new(10, 20));
    let p = Point::new(2, 3);
    assert_eq!(RotateAngle::Degrees90.transform(p, &pdim), Point::new(7, 2));
    assert_eq!(RotateAngle::Degrees180.transform(p, &pdim), Point::new(18, 7));
    assert_eq!(RotateAngle::Degrees270.transform(p, &pdim), Point::new(3, 18));
}

#[test]
fn rotate_sizes_and_rects() {
    let s = Size::new(10, 20);
    assert_eq!(RotateAngle::Degrees90.transform_size(s), Size::new(20, 10));
    assert_eq!(RotateAngle::Degrees180.transform_size(s), s);
    assert_eq!(RotateAngle::Degrees270.transform_size(s), Size::new(20, 10));
    let pdim = Rectangle::new(Point::new(0, 0), Size::new(10, 20));
    let r = Rectangle::new(Point::new(1, 2), Size::new(3, 4));
    assert_eq!(
        RotateAngle::Degrees90.transform_rect(&r, &pdim),
        Rectangle::new(Point::new(4, 1), Size::new(5, 4))
    );
}
