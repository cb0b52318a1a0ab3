//! Domain names: labels in hierarchical order, their wire form with compression
//! pointers, and their text form.
use crate::binutils::{holds_at, safe_u8_read};
use crate::ParseError;
use vstd::prelude::*;
use vstd::slice::{slice_subrange, slice_to_vec};
use vstd::string::StringSliceAdditionalSpecFns;

verus! {

/// Most compression pointer hops that one name may take.
pub const MAX_JUMPS: u8 = 5;
/// Most bytes in one label.
pub const MAX_LABEL_SIZE: usize = 63;
/// Most bytes in the wire form of one name, terminator included.
pub const MAX_NAME_SIZE: usize = 255;

/// An ASCII letter.
pub open spec fn is_letter(b: u8) -> bool {
    (65 <= b <= 90) || (97 <= b <= 122)
}

/// An ASCII letter, digit or `-`.
pub open spec fn is_ldh(b: u8) -> bool {
    is_letter(b) || (48 <= b <= 57) || b == 45
}

/// A label of letters, digits and `-` that starts with a letter.
pub open spec fn ldh_label(l: Seq<u8>) -> bool {
    &&& l.len() >= 1
    &&& is_letter(l[0])
    &&& forall|i: int| 1 <= i < l.len() ==> is_ldh(#[trigger] l[i])
}

/// A label that a name may hold: letters, digits and `-`, starting with a letter, at most 63 bytes.
pub open spec fn good_label(l: Seq<u8>) -> bool {
    ldh_label(l) && l.len() <= MAX_LABEL_SIZE
}

/// The bytes that `ls` take on the wire without the terminator: a length octet and the bytes of each label.
pub open spec fn labels_size(ls: Seq<Seq<u8>>) -> nat
    decreases ls.len(),
{
    if ls.len() == 0 {
        0
    } else {
        ls[0].len() + 1 + labels_size(ls.drop_first())
    }
}

/// Labels that make a name: each one good, and at most 255 bytes on the wire.
pub open spec fn valid_labels(ls: Seq<Seq<u8>>) -> bool {
    &&& forall|i: int| 0 <= i < ls.len() ==> good_label(#[trigger] ls[i])
    &&& labels_size(ls) + 1 <= MAX_NAME_SIZE
}

pub proof fn lemma_labels_size_concat(a: Seq<Seq<u8>>, b: Seq<Seq<u8>>)
    ensures
        labels_size(a + b) == labels_size(a) + labels_size(b),
    decreases a.len(),
{
    if a.len() > 0 {
        lemma_labels_size_concat(a.drop_first(), b);
        assert((a + b).drop_first() =~= a.drop_first() + b);
    } else {
        assert(a + b =~= b);
    }
}

/// The wire form of one label: its length octet, then its bytes.
pub open spec fn label_bytes(l: Seq<u8>) -> Seq<u8> {
    seq![l.len() as u8] + l
}

/// The labels of `ls` on the wire, leaf first, without the terminator.
pub open spec fn labels_bytes(ls: Seq<Seq<u8>>) -> Seq<u8>
    decreases ls.len(),
{
    if ls.len() == 0 {
        Seq::empty()
    } else {
        labels_bytes(ls.drop_first()) + label_bytes(ls[0])
    }
}

/// The uncompressed wire form of the name whose labels, TLD first, are `ls`.
pub open spec fn name_bytes(ls: Seq<Seq<u8>>) -> Seq<u8> {
    labels_bytes(ls) + seq![0u8]
}

pub proof fn lemma_labels_bytes_len(ls: Seq<Seq<u8>>)
    ensures
        labels_bytes(ls).len() == labels_size(ls),
    decreases ls.len(),
{
    if ls.len() > 0 {
        lemma_labels_bytes_len(ls.drop_first());
    }
}

/// What one length octet says.
pub enum LabelMeta {
    /// The terminator.
    End,
    /// A literal label of that many bytes.
    Size(usize),
    /// A pointer to that offset.
    Pointer(usize),
}

/// What the octet at `pos` says, or why it cannot be read.
pub open spec fn meta_at(buf: Seq<u8>, pos: int) -> Result<LabelMeta, ParseError> {
    if pos < 0 || pos >= buf.len() {
        Err(ParseError::OobRead(pos as usize))
    } else if buf[pos] == 0 {
        Ok(LabelMeta::End)
    } else if buf[pos] <= 63 {
        Ok(LabelMeta::Size(buf[pos] as usize))
    } else if buf[pos] >= 192 {
        if pos + 2 > buf.len() {
            Err(ParseError::OobRead(pos as usize))
        } else {
            Ok(LabelMeta::Pointer(((buf[pos] - 192) * 256 + buf[pos + 1]) as usize))
        }
    } else {
        Err(ParseError::LabelPrefix(buf[pos]))
    }
}

/// The walk over a name on the wire.
///
/// The walk stands at `pos`, has taken `jumps` pointer hops, and has found the labels `acc`
/// (TLD first; each new label goes in front). `size` counts the bytes that the name takes
/// where it starts: the literal bytes before the first hop, and two for that hop.
/// The result is the labels of the name and the bytes it takes where it starts.
pub open spec fn name_walk(buf: Seq<u8>, pos: int, size: int, jumps: int, acc: Seq<Seq<u8>>) -> Result<
    (Seq<Seq<u8>>, int),
    ParseError,
>
    decreases MAX_JUMPS - jumps + 1, buf.len() - pos,
{
    if jumps > MAX_JUMPS || jumps < 0 {
        Err(ParseError::ExcesiveJumps(jumps as u8))
    } else {
        match meta_at(buf, pos) {
            Err(e) => Err(e),
            Ok(LabelMeta::End) => Ok((acc, if jumps == 0 { size + 1 } else { size })),
            Ok(LabelMeta::Size(s)) => {
                let label = buf.subrange(pos + 1, pos + 1 + s);
                if pos + s >= buf.len() {
                    Err(ParseError::LabelLength(s))
                } else if labels_size(acc) + s + 2 > MAX_NAME_SIZE {
                    Err(ParseError::NameLength((labels_size(acc) + s + 2) as usize))
                } else if !ldh_label(label) {
                    Err(ParseError::LabelContent)
                } else {
                    name_walk(
                        buf,
                        pos + s + 1,
                        if jumps == 0 { size + s + 1 } else { size },
                        jumps,
                        seq![label] + acc,
                    )
                }
            },
            Ok(LabelMeta::Pointer(ptr)) => {
                if ptr >= pos {
                    Err(ParseError::InvalidJump)
                } else {
                    name_walk(buf, ptr as int, if jumps == 0 { size + 2 } else { size }, jumps + 1, acc)
                }
            },
        }
    }
}

/// The name that starts at `pos` in `buf`, TLD first, and the bytes it takes there.
pub open spec fn parse_name(buf: Seq<u8>, pos: int) -> Result<(Seq<Seq<u8>>, int), ParseError> {
    name_walk(buf, pos, 0, 0, Seq::empty())
}

/// Reads the length octet at `pos`.
fn read_label_metadata(buff: &[u8], pos: usize) -> (r: Result<LabelMeta, ParseError>)
    ensures
        r == meta_at(buff@, pos as int),
{
    let b = safe_u8_read(buff, pos)?;
    if b == 0 {
        Ok(LabelMeta::End)
    } else if b <= 63 {
        Ok(LabelMeta::Size(b as usize))
    } else if b >= 192 {
        if buff.len() - pos < 2 {
            Err(ParseError::OobRead(pos))
        } else {
            Ok(LabelMeta::Pointer(((b - 192) as usize) * 256 + buff[pos + 1] as usize))
        }
    } else {
        Err(ParseError::LabelPrefix(b))
    }
}

/// Whether `label` is letters, digits and `-`, starting with a letter.
pub fn valid_label(label: &[u8]) -> (r: bool)
    ensures
        r == ldh_label(label@),
{
    if label.len() == 0 {
        return false;
    }
    let first = label[0];
    if !((65 <= first && first <= 90) || (97 <= first && first <= 122)) {
        return false;
    }
    let mut i: usize = 1;
    while i < label.len()
        invariant
            1 <= i <= label@.len(),
            forall|j: int| 1 <= j < i ==> is_ldh(#[trigger] label@[j]),
        decreases label@.len() - i,
    {
        let b = label[i];
        if !((65 <= b && b <= 90) || (97 <= b && b <= 122) || (48 <= b && b <= 57) || b == 45) {
            assert(!is_ldh(label@[i as int]));
            return false;
        }
        i += 1;
    }
    true
}

/// A domain name, as a list of labels in hierarchical order (TLD first).
#[derive(Debug, PartialEq, Eq)]
pub struct Name {
    labels: Vec<Vec<u8>>,
}

/// The labels of `v`, each as a sequence of bytes.
pub open spec fn labels_view(v: Seq<Vec<u8>>) -> Seq<Seq<u8>> {
    v.map_values(|l: Vec<u8>| l@)
}

impl View for Name {
    type V = Seq<Seq<u8>>;

    closed spec fn view(&self) -> Seq<Seq<u8>> {
        labels_view(self.labels@)
    }
}

impl Name {
    #[verifier::type_invariant]
    spec fn inv(&self) -> bool {
        valid_labels(labels_view(self.labels@))
    }

    /// Parses the name that starts at `pos` in `buff`, and returns it with the number of
    /// bytes it takes there.
    ///
    /// Compression pointers are followed; each must point before itself, and at most five
    /// are followed. A name reached through pointers adds to the count only the two bytes of
    /// the first pointer.
    pub fn parse(buff: &[u8], start: usize) -> (r: Result<(Name, usize), ParseError>)
        ensures
            match r {
                Ok((name, n)) => parse_name(buff@, start as int) == Ok::<(Seq<Seq<u8>>, int), ParseError>((name@, n as int)),
                Err(e) => parse_name(buff@, start as int) == Err::<(Seq<Seq<u8>>, int), ParseError>(e),
            },
            match r {
                Ok((name, n)) => valid_labels(name@) && 1 <= n && start + n <= buff@.len(),
                Err(_) => true,
            },
    {
        let mut labels: Vec<Vec<u8>> = Vec::new();
        let mut total: usize = 0;
        let mut pos: usize = start;
        let mut size: usize = 0;
        let mut jumps: u8 = 0;
        let blen = buff.len();
        assert(labels_view(labels@) =~= Seq::<Seq<u8>>::empty());
        loop
            invariant
                name_walk(buff@, pos as int, size as int, jumps as int, labels_view(labels@))
                    == parse_name(buff@, start as int),
                total == labels_size(labels_view(labels@)),
                valid_labels(labels_view(labels@)),
                jumps <= MAX_JUMPS + 1,
                blen == buff@.len(),
                jumps == 0 ==> start + size == pos,
                jumps > 0 ==> 2 <= size && start + size <= buff@.len(),
            decreases MAX_JUMPS - jumps + 1, buff@.len() - pos,
        {
            if jumps > MAX_JUMPS {
                return Err(ParseError::ExcesiveJumps(jumps));
            }
            let meta = read_label_metadata(buff, pos)?;
            match meta {
                LabelMeta::End => {
                    let n = if jumps == 0 {
                        size + 1
                    } else {
                        size
                    };
                    return Ok((Name { labels }, n));
                },
                LabelMeta::Size(s) => {
                    if buff.len() - pos <= s {
                        return Err(ParseError::LabelLength(s));
                    }
                    if total + s + 2 > MAX_NAME_SIZE {
                        return Err(ParseError::NameLength(total + s + 2));
                    }
                    let bytes = slice_subrange(buff, pos + 1, pos + 1 + s);
                    if !valid_label(bytes) {
                        return Err(ParseError::LabelContent);
                    }
                    let ghost old_view = labels_view(labels@);
                    labels.insert(0, slice_to_vec(bytes));
                    assert(labels_view(labels@) =~= seq![bytes@] + old_view);
                    assert((seq![bytes@] + old_view).drop_first() =~= old_view);
                    assert forall|i: int| 0 <= i < labels_view(labels@).len() implies good_label(
                        #[trigger] labels_view(labels@)[i],
                    ) by {
                        if i > 0 {
                            assert(labels_view(labels@)[i] == old_view[i - 1]);
                        }
                    }
                    total = total + s + 1;
                    if jumps == 0 {
                        size = size + s + 1;
                    }
                    pos = pos + s + 1;
                },
                LabelMeta::Pointer(ptr) => {
                    if ptr >= pos {
                        return Err(ParseError::InvalidJump);
                    }
                    if jumps == 0 {
                        size = size + 2;
                    }
                    pos = ptr;
                    jumps = jumps + 1;
                },
            }
        }
    }
}

/// Good labels hold only bytes below 128.
pub proof fn lemma_good_label_ascii(l: Seq<u8>)
    requires
        good_label(l),
    ensures
        forall|i: int| 0 <= i < l.len() ==> #[trigger] l[i] < 128,
{
    assert forall|i: int| 0 <= i < l.len() implies #[trigger] l[i] < 128 by {
        if i > 0 {
            assert(is_ldh(l[i]));
        }
    }
}

/// Whether `a` is a prefix of `b`.
pub open spec fn is_prefix(a: Seq<Seq<u8>>, b: Seq<Seq<u8>>) -> bool {
    a.len() <= b.len() && b.subrange(0, a.len() as int) == a
}

/// The text form of the name whose labels, TLD first, are `ls`: each label leaf first,
/// followed by a dot.
pub open spec fn labels_text(ls: Seq<Seq<u8>>) -> Seq<u8>
    decreases ls.len(),
{
    if ls.len() == 0 {
        Seq::empty()
    } else {
        labels_text(ls.drop_first()) + ls[0] + seq![46u8]
    }
}

/// An error met while building a domain name from labels.
#[derive(Debug, Clone, Copy, PartialEq, Eq, Structural)]
pub enum NameError {
    /// A label is empty or longer than 63 bytes.
    LabelLength(usize),
    /// A label holds a byte outside letters, digits and `-`, or starts with no letter.
    LabelContent,
    /// The name would be longer, serialized, than 255 bytes.
    NameLength(usize),
}

/// The labels `ls` with `l` added as the most specific label, or why `l` cannot be added.
pub open spec fn push_label_result(ls: Seq<Seq<u8>>, l: Seq<u8>) -> Result<Seq<Seq<u8>>, NameError> {
    if l.len() == 0 || l.len() > MAX_LABEL_SIZE {
        Err(NameError::LabelLength(l.len() as usize))
    } else if labels_size(ls) + l.len() + 2 > MAX_NAME_SIZE {
        Err(NameError::NameLength((labels_size(ls) + l.len() + 2) as usize))
    } else if !ldh_label(l) {
        Err(NameError::LabelContent)
    } else {
        Ok(ls.push(l))
    }
}

/// Whether the byte sequences `a` and `b` are equal.
fn bytes_eq(a: &[u8], b: &[u8]) -> (r: bool)
    ensures
        r == (a@ == b@),
{
    if a.len() != b.len() {
        return false;
    }
    let mut i: usize = 0;
    while i < a.len()
        invariant
            a@.len() == b@.len(),
            0 <= i <= a@.len(),
            forall|j: int| 0 <= j < i ==> a@[j] == b@[j],
        decreases a@.len() - i,
    {
        if a[i] != b[i] {
            return false;
        }
        i += 1;
    }
    assert(a@ =~= b@);
    true
}

impl Name {
    /// Serializes the name at the end of `packet`, uncompressed.
    pub fn serialize(&self, packet: &mut Vec<u8>)
        ensures
            final(packet)@ == old(packet)@ + name_bytes(self@),
            name_bytes(self@).len() <= MAX_NAME_SIZE,
            valid_labels(self@),
    {
        proof {
            use_type_invariant(self);
            lemma_labels_bytes_len(self@);
        }
        let mut i: usize = self.labels.len();
        assert(self@.subrange(i as int, self@.len() as int) =~= Seq::<Seq<u8>>::empty());
        while i > 0
            invariant
                i <= self@.len(),
                self@.len() == self.labels@.len(),
                self@ == labels_view(self.labels@),
                valid_labels(self@),
                packet@ == old(packet)@ + labels_bytes(self@.subrange(i as int, self@.len() as int)),
            decreases i,
        {
            i -= 1;
            let label = &self.labels[i];
            assert(label@ == self@[i as int]);
            assert(good_label(self@[i as int]));
            packet.push(label.len() as u8);
            let mut j: usize = 0;
            let ghost before = packet@;
            while j < label.len()
                invariant
                    0 <= j <= label@.len(),
                    packet@ == before + label@.subrange(0, j as int),
                decreases label@.len() - j,
            {
                packet.push(label[j]);
                assert(label@.subrange(0, j + 1) =~= label@.subrange(0, j as int).push(label@[j as int]));
                j += 1;
            }
            assert(label@.subrange(0, j as int) =~= label@);
            let ghost rest = self@.subrange(i as int, self@.len() as int);
            assert(rest.drop_first() =~= self@.subrange(i + 1, self@.len() as int));
            assert(packet@ =~= old(packet)@ + labels_bytes(rest));
        }
        packet.push(0u8);
        assert(self@.subrange(0, self@.len() as int) =~= self@);
        assert(final(packet)@ =~= old(packet)@ + name_bytes(self@));
    }

    /// A new, empty name: the root.
    pub fn new() -> (r: Name)
        ensures
            r@ == Seq::<Seq<u8>>::empty(),
    {
        let r = Name { labels: Vec::new() };
        assert(r@ =~= Seq::<Seq<u8>>::empty());
        r
    }

    /// The top level domain: the first label in hierarchical order, if any.
    pub fn tld(&self) -> (r: Option<&str>)
        ensures
            match r {
                None => self@.len() == 0,
                Some(t) => self@.len() > 0 && t@ == ascii_chars(self@[0]),
            },
    {
        proof {
            use_type_invariant(self);
        }
        if self.labels.len() == 0 {
            None
        } else {
            proof {
                lemma_good_label_ascii(self@[0]);
            }
            Some(ascii_str(self.labels[0].as_slice()))
        }
    }

    /// Number of labels in the name.
    pub fn label_count(&self) -> (r: usize)
        ensures
            r == self@.len(),
    {
        self.labels.len()
    }

    /// Whether `sub` is this name or a subdomain of it: whether the labels of this name,
    /// TLD first, start the labels of `sub`.
    pub fn is_subdomain(&self, sub: &Name) -> (r: bool)
        ensures
            r == is_prefix(self@, sub@),
    {
        if self.labels.len() > sub.labels.len() {
            return false;
        }
        let mut i: usize = 0;
        while i < self.labels.len()
            invariant
                self@.len() <= sub@.len(),
                self@.len() == self.labels@.len(),
                sub@.len() == sub.labels@.len(),
                0 <= i <= self@.len(),
                forall|j: int| 0 <= j < i ==> self@[j] == sub@[j],
            decreases self@.len() - i,
        {
            if !bytes_eq(self.labels[i].as_slice(), sub.labels[i].as_slice()) {
                assert(sub@.subrange(0, self@.len() as int)[i as int] != self@[i as int]);
                return false;
            }
            i += 1;
        }
        assert(sub@.subrange(0, self@.len() as int) =~= self@);
        true
    }

    /// The labels in hierarchical order: TLD first.
    pub fn iter_hierarchy(&self) -> (r: Vec<&str>)
        ensures
            r@.len() == self@.len(),
            forall|i: int| 0 <= i < r@.len() ==> (#[trigger] r@[i])@ == ascii_chars(self@[i]),
    {
        proof {
            use_type_invariant(self);
        }
        let mut out: Vec<&str> = Vec::new();
        let mut i: usize = 0;
        while i < self.labels.len()
            invariant
                0 <= i <= self@.len(),
                self@.len() == self.labels@.len(),
                self@ == labels_view(self.labels@),
                valid_labels(self@),
                out@.len() == i,
                forall|j: int| 0 <= j < i ==> (#[trigger] out@[j])@ == ascii_chars(self@[j]),
            decreases self@.len() - i,
        {
            proof {
                lemma_good_label_ascii(self@[i as int]);
            }
            out.push(ascii_str(self.labels[i].as_slice()));
            i += 1;
        }
        out
    }

    /// The labels in human order: most specific first, TLD last.
    pub fn iter_human(&self) -> (r: Vec<&str>)
        ensures
            r@.len() == self@.len(),
            forall|i: int|
                0 <= i < r@.len() ==> (#[trigger] r@[i])@ == ascii_chars(self@[self@.len() - 1 - i]),
    {
        proof {
            use_type_invariant(self);
        }
        let mut out: Vec<&str> = Vec::new();
        let mut i: usize = self.labels.len();
        while i > 0
            invariant
                0 <= i <= self@.len(),
                self@.len() == self.labels@.len(),
                self@ == labels_view(self.labels@),
                valid_labels(self@),
                out@.len() == self@.len() - i,
                forall|j: int|
                    0 <= j < out@.len() ==> (#[trigger] out@[j])@ == ascii_chars(
                        self@[self@.len() - 1 - j],
                    ),
            decreases i,
        {
            i -= 1;
            proof {
                lemma_good_label_ascii(self@[i as int]);
            }
            out.push(ascii_str(self.labels[i].as_slice()));
        }
        out
    }

    /// Adds `label` as the most specific label of the name, if it is a good label and the
    /// name still fits on the wire; else the name is left as it was.
    pub fn push_label(&mut self, label: &str) -> (r: Result<(), NameError>)
        ensures
            match push_label_result(old(self)@, label.spec_bytes()) {
                Ok(ls) => r is Ok && final(self)@ == ls,
                Err(e) => r == Err::<(), NameError>(e) && final(self)@ == old(self)@,
            },
    {
        self.push_bytes(label.as_bytes())
    }

    /// Adds the bytes `label` as the most specific label of the name, if they make a good
    /// label and the name still fits on the wire; else the name is left as it was.
    fn push_bytes(&mut self, label: &[u8]) -> (r: Result<(), NameError>)
        ensures
            match push_label_result(old(self)@, label@) {
                Ok(ls) => r is Ok && final(self)@ == ls,
                Err(e) => r == Err::<(), NameError>(e) && final(self)@ == old(self)@,
            },
    {
        proof {
            use_type_invariant(&*self);
        }
        let len = label.len();
        if len == 0 || len > MAX_LABEL_SIZE {
            return Err(NameError::LabelLength(len));
        }
        let total = self.wire_size();
        if total + len + 2 > MAX_NAME_SIZE {
            return Err(NameError::NameLength(total + len + 2));
        }
        if !valid_label(label) {
            return Err(NameError::LabelContent);
        }
        let ghost old_view = self@;
        proof {
            lemma_labels_size_concat(old_view, seq![label@]);
            assert(labels_size(seq![label@]) == label@.len() + 1) by {
                assert(seq![label@].drop_first() =~= Seq::<Seq<u8>>::empty());
                assert(labels_size(Seq::<Seq<u8>>::empty()) == 0);
            }
        }
        let mut taken = Name::new();
        core::mem::swap(self, &mut taken);
        let Name { labels: mut labels } = taken;
        labels.push(slice_to_vec(label));
        assert(labels_view(labels@) =~= old_view.push(label@));
        assert(old_view.push(label@) =~= old_view + seq![label@]);
        *self = Name { labels };
        assert(old_view.push(label@) =~= old_view + seq![label@]);
        Ok(())
    }

    /// The bytes that the labels take on the wire, without the terminator.
    fn wire_size(&self) -> (r: usize)
        ensures
            r == labels_size(self@),
    {
        proof {
            use_type_invariant(self);
        }
        let mut total: usize = 0;
        let mut i: usize = self.labels.len();
        assert(self@.subrange(i as int, self@.len() as int) =~= Seq::<Seq<u8>>::empty());
        while i > 0
            invariant
                0 <= i <= self@.len(),
                self@.len() == self.labels@.len(),
                self@ == labels_view(self.labels@),
                valid_labels(self@),
                total == labels_size(self@.subrange(i as int, self@.len() as int)),
            decreases i,
        {
            i -= 1;
            let ghost rest = self@.subrange(i as int, self@.len() as int);
            assert(rest.drop_first() =~= self@.subrange(i + 1, self@.len() as int));
            proof {
                lemma_labels_size_concat(self@.subrange(0, i as int), rest);
                assert(self@.subrange(0, i as int) + rest =~= self@);
            }
            total = total + self.labels[i].len() + 1;
        }
        assert(self@.subrange(0, self@.len() as int) =~= self@);
        total
    }

    /// The text form of the name: its labels, most specific first, each followed by a dot.
    pub fn to_string(&self) -> (r: String)
        ensures
            r@ == ascii_chars(labels_text(self@)),
    {
        proof {
            use_type_invariant(self);
        }
        let mut out: Vec<u8> = Vec::new();
        let mut i: usize = self.labels.len();
        assert(self@.subrange(i as int, self@.len() as int) =~= Seq::<Seq<u8>>::empty());
        while i > 0
            invariant
                0 <= i <= self@.len(),
                self@.len() == self.labels@.len(),
                self@ == labels_view(self.labels@),
                valid_labels(self@),
                out@ == labels_text(self@.subrange(i as int, self@.len() as int)),
                forall|k: int| 0 <= k < out@.len() ==> #[trigger] out@[k] < 128,
            decreases i,
        {
            i -= 1;
            let label = &self.labels[i];
            assert(label@ == self@[i as int]);
            proof {
                lemma_good_label_ascii(self@[i as int]);
            }
            let mut j: usize = 0;
            let ghost before = out@;
            while j < label.len()
                invariant
                    0 <= j <= label@.len(),
                    out@ == before + label@.subrange(0, j as int),
                    forall|k: int| 0 <= k < label@.len() ==> #[trigger] label@[k] < 128,
                    forall|k: int| 0 <= k < out@.len() ==> #[trigger] out@[k] < 128,
                decreases label@.len() - j,
            {
                out.push(label[j]);
                assert(label@.subrange(0, j + 1) =~= label@.subrange(0, j as int).push(label@[j as int]));
                j += 1;
            }
            out.push(46u8);
            assert(label@.subrange(0, j as int) =~= label@);
            let ghost rest = self@.subrange(i as int, self@.len() as int);
            assert(rest.drop_first() =~= self@.subrange(i + 1, self@.len() as int));
            assert(out@ =~= labels_text(rest));
        }
        assert(self@.subrange(0, self@.len() as int) =~= self@);
        ascii_str(out.as_slice()).to_owned()
    }
}

/// The parts of `b[0..i]` between dots, rightmost first, where the rightmost part runs on
/// to `end`.
pub open spec fn rsplit_from(b: Seq<u8>, i: int, end: int) -> Seq<Seq<u8>>
    decreases i,
{
    if i <= 0 {
        seq![b.subrange(0, end)]
    } else if b[i - 1] == 46 {
        seq![b.subrange(i, end)] + rsplit_from(b, i - 1, i - 1)
    } else {
        rsplit_from(b, i - 1, end)
    }
}

/// The parts of `b` between dots, rightmost (TLD) first.
pub open spec fn text_parts(b: Seq<u8>) -> Seq<Seq<u8>> {
    rsplit_from(b, b.len() as int, b.len() as int)
}

/// The labels `ls` with each of `parts` added in turn as the most specific label, or the
/// error for the first part that cannot be added.
pub open spec fn push_labels(ls: Seq<Seq<u8>>, parts: Seq<Seq<u8>>) -> Result<Seq<Seq<u8>>, NameError>
    decreases parts.len(),
{
    if parts.len() == 0 {
        Ok(ls)
    } else {
        match push_label_result(ls, parts[0]) {
            Err(e) => Err(e),
            Ok(next) => push_labels(next, parts.drop_first()),
        }
    }
}

/// The name written as the text `b` (labels separated by dots, no trailing dot), or why
/// there is none.
pub open spec fn name_from_text(b: Seq<u8>) -> Result<Seq<Seq<u8>>, NameError> {
    push_labels(Seq::empty(), text_parts(b))
}

impl Name {
    /// Builds the name written as `value`: labels separated by dots, without a trailing dot.
    /// The labels are added from the right (TLD first); the first one that is not a good
    /// label, or that makes the name too long, is the error.
    pub fn from_text(value: &str) -> (r: Result<Name, NameError>)
        ensures
            match name_from_text(value.spec_bytes()) {
                Ok(ls) => r is Ok && r->Ok_0@ == ls,
                Err(e) => r == Err::<Name, NameError>(e),
            },
    {
        let bytes = value.as_bytes();
        assert(bytes@ == value.spec_bytes());
        let mut name = Name::new();
        let mut end: usize = bytes.len();
        let mut i: usize = bytes.len();
        loop
            invariant
                0 <= i <= end <= bytes@.len(),
                bytes@ == value.spec_bytes(),
                push_labels(name@, rsplit_from(bytes@, i as int, end as int)) == name_from_text(bytes@),
            decreases i,
        {
            if i == 0 {
                let part = slice_subrange(bytes, 0, end);
                assert(part@ == bytes@.subrange(0, end as int));
                assert(seq![part@][0] == part@);
                assert(rsplit_from(bytes@, i as int, end as int) == seq![part@]);
                assert(seq![part@].drop_first() =~= Seq::<Seq<u8>>::empty());
                if let Err(e) = name.push_bytes(part) {
                    return Err(e);
                }
                assert(push_labels(name@, Seq::<Seq<u8>>::empty()) == Ok::<Seq<Seq<u8>>, NameError>(name@));
                return Ok(name);
            }
            if bytes[i - 1] == 46 {
                let part = slice_subrange(bytes, i, end);
                let ghost rest = rsplit_from(bytes@, i - 1, i - 1);
                assert(part@ == bytes@.subrange(i as int, end as int));
                assert((seq![part@] + rest).drop_first() =~= rest);
                assert((seq![part@] + rest)[0] == part@);
                if let Err(e) = name.push_bytes(part) {
                    return Err(e);
                }
                end = i - 1;
            }
            i -= 1;
        }
    }
}

/// The walk over literal labels from `pos` up to a terminator or a pointer, with the labels
/// `acc` found so far (TLD first; each new label goes in front): the labels found and the
/// position where the walk stops.
pub open spec fn literal_walk(buf: Seq<u8>, pos: int, acc: Seq<Seq<u8>>) -> Result<(Seq<Seq<u8>>, int), ParseError>
    decreases buf.len() - pos,
{
    match meta_at(buf, pos) {
        Err(e) => Err(e),
        Ok(LabelMeta::Size(s)) => {
            let label = buf.subrange(pos + 1, pos + 1 + s);
            if pos + s >= buf.len() {
                Err(ParseError::LabelLength(s))
            } else if labels_size(acc) + s + 2 > MAX_NAME_SIZE {
                Err(ParseError::NameLength((labels_size(acc) + s + 2) as usize))
            } else if !ldh_label(label) {
                Err(ParseError::LabelContent)
            } else {
                literal_walk(buf, pos + s + 1, seq![label] + acc)
            }
        },
        Ok(_) => Ok((acc, pos)),
    }
}

/// Walks the literal labels at the start of `buff`, up to a terminator or a compression
/// pointer, and returns the name they make with the number of bytes walked (the terminator
/// or pointer not counted).
pub fn parse_no_jumps(buff: &[u8]) -> (r: Result<(Name, usize), ParseError>)
    ensures
        match r {
            Ok((name, n)) => literal_walk(buff@, 0, Seq::empty()) == Ok::<(Seq<Seq<u8>>, int), ParseError>((name@, n as int)),
            Err(e) => literal_walk(buff@, 0, Seq::empty()) == Err::<(Seq<Seq<u8>>, int), ParseError>(e),
        },
{
    let blen = buff.len();
    let mut labels: Vec<Vec<u8>> = Vec::new();
    let mut total: usize = 0;
    let mut walked: usize = 0;
    assert(labels_view(labels@) =~= Seq::<Seq<u8>>::empty());
    loop
        invariant
            literal_walk(buff@, walked as int, labels_view(labels@)) == literal_walk(buff@, 0, Seq::empty()),
            total == labels_size(labels_view(labels@)),
            valid_labels(labels_view(labels@)),
            walked <= blen,
            blen == buff@.len(),
        decreases buff@.len() - walked,
    {
        let meta = read_label_metadata(buff, walked)?;
        match meta {
            LabelMeta::Size(s) => {
                if blen - walked <= s {
                    return Err(ParseError::LabelLength(s));
                }
                if total + s + 2 > MAX_NAME_SIZE {
                    return Err(ParseError::NameLength(total + s + 2));
                }
                let bytes = slice_subrange(buff, walked + 1, walked + 1 + s);
                if !valid_label(bytes) {
                    return Err(ParseError::LabelContent);
                }
                let ghost old_view = labels_view(labels@);
                labels.insert(0, slice_to_vec(bytes));
                assert(labels_view(labels@) =~= seq![bytes@] + old_view);
                assert((seq![bytes@] + old_view).drop_first() =~= old_view);
                assert forall|i: int| 0 <= i < labels_view(labels@).len() implies good_label(
                    #[trigger] labels_view(labels@)[i],
                ) by {
                    if i > 0 {
                        assert(labels_view(labels@)[i] == old_view[i - 1]);
                    }
                }
                total = total + s + 1;
                walked = walked + s + 1;
            },
            _ => {
                return Ok((Name { labels }, walked));
            },
        }
    }
}

impl<'a> TryFrom<&'a str> for Name {
    type Error = NameError;

    fn try_from(value: &'a str) -> (r: Result<Name, NameError>)
        ensures
            match name_from_text(value.spec_bytes()) {
                Ok(ls) => r is Ok && r->Ok_0@ == ls,
                Err(e) => r == Err::<Name, NameError>(e),
            },
    {
        Name::from_text(value)
    }
}

impl<'a> vstd::std_specs::convert::TryFromSpecImpl<&'a str> for Name {
    open spec fn obeys_try_from_spec() -> bool {
        false
    }

    open spec fn try_from_spec(value: &'a str) -> Result<Name, NameError> {
        arbitrary()
    }
}

impl From<Name> for Vec<u8> {
    fn from(name: Name) -> (r: Vec<u8>)
        ensures
            r@ == name_bytes(name@),
    {
        let mut out = Vec::new();
        name.serialize(&mut out);
        assert(out@ =~= name_bytes(name@));
        out
    }
}

impl vstd::std_specs::convert::FromSpecImpl<Name> for Vec<u8> {
    open spec fn obeys_from_spec() -> bool {
        false
    }

    open spec fn from_spec(name: Name) -> Vec<u8> {
        arbitrary()
    }
}

impl Clone for Name {
    fn clone(&self) -> (r: Name)
        ensures
            r@ == self@,
    {
        proof {
            use_type_invariant(self);
        }
        let mut labels: Vec<Vec<u8>> = Vec::new();
        let mut i: usize = 0;
        while i < self.labels.len()
            invariant
                0 <= i <= self@.len(),
                self@.len() == self.labels@.len(),
                self@ == labels_view(self.labels@),
                labels_view(labels@) == self@.subrange(0, i as int),
            decreases self@.len() - i,
        {
            let copy = slice_to_vec(self.labels[i].as_slice());
            assert(copy@ == self@[i as int]);
            let ghost before = labels@;
            labels.push(copy);
            assert(labels_view(labels@) =~= labels_view(before).push(copy@));
            assert(labels_view(labels@) =~= self@.subrange(0, i + 1));
            i += 1;
        }
        assert(self@.subrange(0, self@.len() as int) =~= self@);
        Name { labels }
    }
}

impl Default for Name {
    fn default() -> (r: Name)
        ensures
            r@ == Seq::<Seq<u8>>::empty(),
    {
        Name::new()
    }
}

/// The labels that a successful walk finds make a name, if those it started with did.
pub proof fn lemma_walk_valid(buf: Seq<u8>, pos: int, size: int, jumps: int, acc: Seq<Seq<u8>>)
    requires
        valid_labels(acc),
        name_walk(buf, pos, size, jumps, acc) is Ok,
    ensures
        valid_labels(name_walk(buf, pos, size, jumps, acc)->Ok_0.0),
    decreases MAX_JUMPS - jumps + 1, buf.len() - pos,
{
    if 0 <= jumps <= MAX_JUMPS {
        match meta_at(buf, pos) {
            Ok(LabelMeta::Size(s)) => {
                let label = buf.subrange(pos + 1, pos + 1 + s);
                let next = seq![label] + acc;
                assert(next.drop_first() =~= acc);
                assert forall|i: int| 0 <= i < next.len() implies good_label(#[trigger] next[i]) by {
                    if i > 0 {
                        assert(next[i] == acc[i - 1]);
                    }
                }
                lemma_walk_valid(
                    buf,
                    pos + s + 1,
                    if jumps == 0 { size + s + 1 } else { size },
                    jumps,
                    next,
                );
            },
            Ok(LabelMeta::Pointer(ptr)) => {
                lemma_walk_valid(buf, ptr as int, if jumps == 0 { size + 2 } else { size }, jumps + 1, acc);
            },
            _ => {},
        }
    }
}

/// A name parsed from the wire has good labels and fits on the wire.
pub proof fn lemma_parse_name_valid(buf: Seq<u8>, pos: int)
    requires
        parse_name(buf, pos) is Ok,
    ensures
        valid_labels(parse_name(buf, pos)->Ok_0.0),
{
    assert(labels_size(Seq::<Seq<u8>>::empty()) == 0);
    lemma_walk_valid(buf, pos, 0, 0, Seq::empty());
}

/// A successful walk ends with a count of bytes that lie within `buf` from where the name
/// starts.
pub proof fn lemma_walk_bounds(buf: Seq<u8>, start: int, pos: int, size: int, jumps: int, acc: Seq<Seq<u8>>)
    requires
        0 <= start,
        name_walk(buf, pos, size, jumps, acc) is Ok,
        jumps == 0 ==> start + size == pos && 0 <= size,
        jumps > 0 ==> 2 <= size && start + size <= buf.len(),
    ensures
        1 <= name_walk(buf, pos, size, jumps, acc)->Ok_0.1,
        start + name_walk(buf, pos, size, jumps, acc)->Ok_0.1 <= buf.len(),
    decreases MAX_JUMPS - jumps + 1, buf.len() - pos,
{
    if 0 <= jumps <= MAX_JUMPS {
        match meta_at(buf, pos) {
            Ok(LabelMeta::Size(s)) => {
                let label = buf.subrange(pos + 1, pos + 1 + s);
                lemma_walk_bounds(
                    buf,
                    start,
                    pos + s + 1,
                    if jumps == 0 { size + s + 1 } else { size },
                    jumps,
                    seq![label] + acc,
                );
            },
            Ok(LabelMeta::Pointer(ptr)) => {
                lemma_walk_bounds(buf, start, ptr as int, if jumps == 0 { size + 2 } else { size }, jumps + 1, acc);
            },
            _ => {},
        }
    }
}

/// A name parsed from the wire starts within `buf` and takes at least one byte of it.
pub proof fn lemma_parse_name_bounds(buf: Seq<u8>, pos: int)
    requires
        parse_name(buf, pos) is Ok,
    ensures
        0 <= pos,
        1 <= parse_name(buf, pos)->Ok_0.1,
        pos + parse_name(buf, pos)->Ok_0.1 <= buf.len(),
{
    if pos >= 0 {
        lemma_walk_bounds(buf, pos, pos, 0, 0, Seq::empty());
    }
}

pub proof fn lemma_valid_labels_suffix(ls: Seq<Seq<u8>>)
    requires
        valid_labels(ls),
        ls.len() > 0,
    ensures
        valid_labels(ls.drop_first()),
        labels_size(ls) == ls[0].len() + 1 + labels_size(ls.drop_first()),
{
    assert forall|i: int| 0 <= i < ls.drop_first().len() implies good_label(#[trigger] ls.drop_first()[i]) by {
        assert(ls.drop_first()[i] == ls[i + 1]);
    }
}

/// Literal labels on the wire, walked before any pointer, add themselves in front of what
/// the walk has found so far.
pub proof fn lemma_walk_labels(buf: Seq<u8>, k: int, size: int, acc: Seq<Seq<u8>>, ls: Seq<Seq<u8>>)
    requires
        0 <= k,
        k + labels_bytes(ls).len() < buf.len(),
        buf.subrange(k, k + labels_bytes(ls).len()) == labels_bytes(ls),
        valid_labels(ls + acc),
    ensures
        name_walk(buf, k, size, 0, acc) == name_walk(
            buf,
            k + labels_bytes(ls).len(),
            size + labels_bytes(ls).len(),
            0,
            ls + acc,
        ),
    decreases ls.len(),
{
    if ls.len() == 0 {
        assert(ls + acc =~= acc);
    } else {
        let rest = ls.drop_first();
        let l = ls[0];
        let m = k + labels_bytes(rest).len();
        let s = l.len();
        assert(labels_bytes(ls) == labels_bytes(rest) + label_bytes(l));
        assert(buf.subrange(k, m) =~= labels_bytes(ls).subrange(0, labels_bytes(rest).len() as int));
        assert(labels_bytes(ls).subrange(0, labels_bytes(rest).len() as int) =~= labels_bytes(rest));
        assert((ls + acc).drop_first() =~= rest + acc);
        assert((ls + acc)[0] == l);
        assert(good_label(l));
        lemma_valid_labels_suffix(ls + acc);
        lemma_walk_labels(buf, k, size, acc, rest);
        assert(buf[m] == labels_bytes(ls)[labels_bytes(rest).len() as int]);
        assert(buf[m] == s as u8);
        assert(buf.subrange(m + 1, m + 1 + s) =~= l) by {
            assert forall|j: int| 0 <= j < s implies buf.subrange(m + 1, m + 1 + s)[j] == l[j] by {
                assert(buf[m + 1 + j] == labels_bytes(ls)[labels_bytes(rest).len() + 1 + j]);
            }
        }
        assert(meta_at(buf, m) == Ok::<LabelMeta, ParseError>(LabelMeta::Size(s as usize)));
        assert(seq![l] + (rest + acc) =~= ls + acc);
    }
}

/// The uncompressed wire form of a name parses back to the name, and takes all its bytes.
pub proof fn lemma_name_round_trip(buf: Seq<u8>, k: int, ls: Seq<Seq<u8>>)
    requires
        0 <= k,
        k + name_bytes(ls).len() <= buf.len(),
        buf.subrange(k, k + name_bytes(ls).len()) == name_bytes(ls),
        valid_labels(ls),
    ensures
        parse_name(buf, k) == Ok::<(Seq<Seq<u8>>, int), ParseError>((ls, name_bytes(ls).len() as int)),
{
    let lb = labels_bytes(ls);
    assert(ls + Seq::<Seq<u8>>::empty() =~= ls);
    assert(buf.subrange(k, k + lb.len()) =~= name_bytes(ls).subrange(0, lb.len() as int));
    assert(name_bytes(ls).subrange(0, lb.len() as int) =~= lb);
    lemma_walk_labels(buf, k, 0, Seq::empty(), ls);
    assert(buf[k + lb.len()] == name_bytes(ls)[lb.len() as int]);
}

/// Subdomains order names: the root lies above every name, every name lies under itself,
/// the order is transitive, and two names that lie under each other have the same labels.
pub proof fn lemma_subdomain_order(a: Seq<Seq<u8>>, b: Seq<Seq<u8>>, c: Seq<Seq<u8>>)
    ensures
        is_prefix(Seq::empty(), a),
        is_prefix(a, a),
        is_prefix(a, b) && is_prefix(b, c) ==> is_prefix(a, c),
        is_prefix(a, b) && is_prefix(b, a) ==> a == b,
{
    assert(a.subrange(0, 0) =~= Seq::<Seq<u8>>::empty());
    assert(a.subrange(0, a.len() as int) =~= a);
    if is_prefix(a, b) && is_prefix(b, c) {
        assert(c.subrange(0, a.len() as int) =~= c.subrange(0, b.len() as int).subrange(0, a.len() as int));
    }
}

/// A pointer that does not point strictly before itself ends the walk with `InvalidJump`,
/// whatever the walk has found before it.
pub proof fn lemma_forward_jump(buf: Seq<u8>, pos: int, size: int, jumps: int, acc: Seq<Seq<u8>>)
    requires
        0 <= jumps <= MAX_JUMPS,
        meta_at(buf, pos) is Ok,
        meta_at(buf, pos)->Ok_0 matches LabelMeta::Pointer(ptr) && ptr >= pos,
    ensures
        name_walk(buf, pos, size, jumps, acc) == Err::<(Seq<Seq<u8>>, int), ParseError>(ParseError::InvalidJump),
{
}

/// A name that starts with literal labels and then a pointer that does not point strictly
/// before itself fails with `InvalidJump`.
pub proof fn lemma_first_jump_forward(buf: Seq<u8>, pos: int, ls: Seq<Seq<u8>>)
    requires
        0 <= pos,
        holds_at(buf, pos, labels_bytes(ls)),
        valid_labels(ls),
        meta_at(buf, pos + labels_bytes(ls).len()) is Ok,
        meta_at(buf, pos + labels_bytes(ls).len())->Ok_0 matches LabelMeta::Pointer(ptr) && ptr >= pos
            + labels_bytes(ls).len(),
    ensures
        parse_name(buf, pos) == Err::<(Seq<Seq<u8>>, int), ParseError>(ParseError::InvalidJump),
{
    assert(ls + Seq::<Seq<u8>>::empty() =~= ls);
    lemma_walk_labels(buf, pos, 0, Seq::empty(), ls);
    lemma_forward_jump(buf, pos + labels_bytes(ls).len(), labels_bytes(ls).len() as int, 0, ls);
}

/// From `pos` on, `k` compression pointers follow each other, each pointing strictly before
/// itself at the next.
pub open spec fn pointer_chain(buf: Seq<u8>, pos: int, k: nat) -> bool
    decreases k,
{
    k == 0 || (meta_at(buf, pos) is Ok && match meta_at(buf, pos)->Ok_0 {
        LabelMeta::Pointer(ptr) => ptr < pos && pointer_chain(buf, ptr as int, (k - 1) as nat),
        _ => false,
    })
}

/// A walk that meets more pointers in a row than it may still follow fails with
/// `ExcesiveJumps`.
pub proof fn lemma_chain_walk(buf: Seq<u8>, pos: int, size: int, jumps: int, acc: Seq<Seq<u8>>)
    requires
        0 <= jumps <= MAX_JUMPS + 1,
        pointer_chain(buf, pos, (MAX_JUMPS + 1 - jumps) as nat),
    ensures
        name_walk(buf, pos, size, jumps, acc) == Err::<(Seq<Seq<u8>>, int), ParseError>(
            ParseError::ExcesiveJumps((MAX_JUMPS + 1) as u8),
        ),
    decreases MAX_JUMPS + 1 - jumps,
{
    if jumps <= MAX_JUMPS {
        let ptr = meta_at(buf, pos)->Ok_0->Pointer_0;
        lemma_chain_walk(buf, ptr as int, if jumps == 0 { size + 2 } else { size }, jumps + 1, acc);
    }
}

/// A name that needs more than five pointer hops in a row fails with `ExcesiveJumps`.
pub proof fn lemma_excessive_jumps(buf: Seq<u8>, pos: int)
    requires
        pointer_chain(buf, pos, (MAX_JUMPS + 1) as nat),
    ensures
        parse_name(buf, pos) == Err::<(Seq<Seq<u8>>, int), ParseError>(ParseError::ExcesiveJumps((MAX_JUMPS + 1) as u8)),
{
    lemma_chain_walk(buf, pos, 0, 0, Seq::empty());
}

/// The characters whose code points are the bytes of `b`.
pub open spec fn ascii_chars(b: Seq<u8>) -> Seq<char> {
    b.map_values(|x: u8| x as char)
}

/// Relies on `std::str::from_utf8`: bytes below 128 are valid UTF-8, and each stands for
/// the character with its code point.
#[verifier::external_body]
fn ascii_str(b: &[u8]) -> (r: &str)
    requires
        forall|i: int| 0 <= i < b@.len() ==> #[trigger] b@[i] < 128,
    ensures
        r@ == ascii_chars(b@),
{
    std::str::from_utf8(b).unwrap_or_default()
}

} // verus!
