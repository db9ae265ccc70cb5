use vstd::prelude::*;

verus! {

/// `old` with `data` written at `pos`: the bytes between the old end and
/// `pos` that nothing wrote are zero.
pub open spec fn written(old: Seq<u8>, pos: int, data: Seq<u8>) -> Seq<u8> {
    let len = if old.len() >= pos + data.len() {
        old.len() as int
    } else {
        pos + data.len()
    };
    Seq::new(
        len as nat,
        |k: int|
            if pos <= k < pos + data.len() {
                data[k - pos]
            } else if k < old.len() {
                old[k]
            } else {
                0u8
            },
    )
}

/// The `len` bytes of `img` from `addr`, with zero past its end.
pub open spec fn region_bytes(img: Seq<u8>, addr: int, len: nat) -> Seq<u8> {
    Seq::new(len, |k: int| if addr + k < img.len() { img[addr + k] } else { 0u8 })
}

/// The output under construction: a byte store written at absolute offsets.
pub struct Image {
    bytes: Vec<u8>,
}

impl View for Image {
    type V = Seq<u8>;

    closed spec fn view(&self) -> Seq<u8> {
        self.bytes@
    }
}

impl Image {
    pub fn new() -> (r: Self)
        ensures
            r@ == Seq::<u8>::empty(),
    {
        Image { bytes: Vec::new() }
    }

    pub fn from_bytes(bytes: Vec<u8>) -> (r: Self)
        ensures
            r@ == bytes@,
    {
        Image { bytes }
    }

    pub fn as_bytes(&self) -> (r: &Vec<u8>)
        ensures
            r@ == self@,
    {
        &self.bytes
    }

    pub fn into_bytes(self) -> (r: Vec<u8>)
        ensures
            r@ == self@,
    {
        self.bytes
    }

    /// Reads `len` bytes from `addr`; past the end they read as zero.
    pub fn read_at(&self, addr: usize, len: usize) -> (r: Vec<u8>)
        ensures
            r@ == region_bytes(self@, addr as int, len as nat),
    {
        let mut out: Vec<u8> = Vec::new();
        let n = self.bytes.len();
        let mut k: usize = 0;
        while k < len
            invariant
                k <= len,
                n == self.bytes@.len(),
                out@ =~= region_bytes(self@, addr as int, len as nat).subrange(0, k as int),
            decreases len - k,
        {
            if addr < n && k < n - addr {
                out.push(self.bytes[addr + k]);
            } else {
                out.push(0);
            }
            k = k + 1;
        }
        assert(out@ =~= region_bytes(self@, addr as int, len as nat));
        out
    }

    /// Writes `data` at `pos`, growing the image with zeros where needed.
    pub fn write_at(&mut self, pos: usize, data: &Vec<u8>)
        requires
            pos + data@.len() <= usize::MAX,
        ensures
            final(self)@ == written(old(self)@, pos as int, data@),
    {
        let ghost start = self.bytes@;
        let end = pos + data.len();
        while self.bytes.len() < end
            invariant
                end == pos + data@.len(),
                start.len() <= self.bytes@.len(),
                self.bytes@.len() <= start.len() || self.bytes@.len() <= end,
                forall|k: int| 0 <= k < start.len() ==> #[trigger] self.bytes@[k] == start[k],
                forall|k: int| start.len() <= k < self.bytes@.len() ==> #[trigger] self.bytes@[k] == 0u8,
            decreases end - self.bytes@.len(),
        {
            self.bytes.push(0);
        }
        let mut i: usize = 0;
        while i < data.len()
            invariant
                end == pos + data@.len(),
                i <= data@.len(),
                self.bytes@.len() == written(start, pos as int, data@).len(),
                forall|k: int|
                    0 <= k < self.bytes@.len() ==> #[trigger] self.bytes@[k] == if pos <= k < pos + i {
                        data@[k - pos]
                    } else if k < start.len() {
                        start[k]
                    } else {
                        0u8
                    },
            decreases data@.len() - i,
        {
            self.bytes.set(pos + i, data[i]);
            i = i + 1;
        }
        assert(self.bytes@ =~= written(start, pos as int, data@));
    }
}

} // verus!
