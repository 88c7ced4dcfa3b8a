//! MPT1, the tracker wire format.
//!
//! One datagram carries one tracker's latest pose: 68 bytes, little-endian,
//! packed.
//!
//! ```text
//! off  size  field
//!   0     4  magic = 'MPT1' (0x3154504D LE)
//!   4     1  source   which tracker is speaking
//!   5     1  valid    1 = tracking, 0 = running but lost
//!   6     1  battery_pct   0 = not reported
//!   7     1  battery_flags bit0 = charging
//!   8     8  t_ns     the instant the pose is for, on the producer's clock
//!  16    28  pose[7]  x, y, z, qw, qx, qy, qz
//!  44    12  vel[3]   linear m/s, world frame
//!  56    12  angvel[3] angular rad/s, world frame
//! ```
//!
//! The quaternion is (w,x,y,z) on the wire, while [`Pose`] stores (x,y,z,w);
//! the swap lives in this module only.
//!
//! The source byte is read in two ways. A [`SourcePacket`] keeps it as the
//! sender stamped it; a [`Packet`] takes it for the role itself and refuses
//! every byte that names none.

use crate::ieee::Single;
use crate::text;
use vstd::prelude::*;

verus! {

/// 'MPT1', little-endian.
pub const MAGIC: u32 = 0x3154_504D;

pub const PACKET_LEN: usize = 68;

pub const MAX_DEVICES: usize = 11;

/// Which tracker a packet belongs to. The id is the SteamVR role: one id means
/// one serial means one role, permanently. Append only.
#[derive(Debug, Clone, Copy, PartialEq, Eq, Structural, Hash, PartialOrd, Ord)]
pub enum Device {
    Waist,
    LeftFoot,
    RightFoot,
    Chest,
    LeftKnee,
    RightKnee,
    LeftElbow,
    RightElbow,
    LeftShoulder,
    RightShoulder,
    Camera,
}

impl Device {
    /// The role's id.
    pub open spec fn code(self) -> u8 {
        match self {
            Device::Waist => 0,
            Device::LeftFoot => 1,
            Device::RightFoot => 2,
            Device::Chest => 3,
            Device::LeftKnee => 4,
            Device::RightKnee => 5,
            Device::LeftElbow => 6,
            Device::RightElbow => 7,
            Device::LeftShoulder => 8,
            Device::RightShoulder => 9,
            Device::Camera => 10,
        }
    }

    /// The role with id `v`, where there is one.
    pub open spec fn coded(v: u8) -> Option<Device> {
        if v < MAX_DEVICES {
            Some(all_roles()[v as int])
        } else {
            None
        }
    }

    /// Wire and config name, matching the SteamVR serial suffix.
    pub open spec fn name(self) -> Seq<char> {
        match self {
            Device::Waist => "waist"@,
            Device::LeftFoot => "left_foot"@,
            Device::RightFoot => "right_foot"@,
            Device::Chest => "chest"@,
            Device::LeftKnee => "left_knee"@,
            Device::RightKnee => "right_knee"@,
            Device::LeftElbow => "left_elbow"@,
            Device::RightElbow => "right_elbow"@,
            Device::LeftShoulder => "left_shoulder"@,
            Device::RightShoulder => "right_shoulder"@,
            Device::Camera => "camera"@,
        }
    }

    /// Human-facing name for the role picker.
    pub open spec fn title(self) -> Seq<char> {
        match self {
            Device::Waist => "Waist / hip"@,
            Device::LeftFoot => "Left foot"@,
            Device::RightFoot => "Right foot"@,
            Device::Chest => "Chest"@,
            Device::LeftKnee => "Left knee"@,
            Device::RightKnee => "Right knee"@,
            Device::LeftElbow => "Left elbow"@,
            Device::RightElbow => "Right elbow"@,
            Device::LeftShoulder => "Left shoulder"@,
            Device::RightShoulder => "Right shoulder"@,
            Device::Camera => "Camera"@,
        }
    }

    /// The role's id.
    pub fn id(self) -> (r: u8)
        ensures
            r == self.code(),
    {
        match self {
            Device::Waist => 0,
            Device::LeftFoot => 1,
            Device::RightFoot => 2,
            Device::Chest => 3,
            Device::LeftKnee => 4,
            Device::RightKnee => 5,
            Device::LeftElbow => 6,
            Device::RightElbow => 7,
            Device::LeftShoulder => 8,
            Device::RightShoulder => 9,
            Device::Camera => 10,
        }
    }

    /// The role with id `v`, where there is one.
    pub fn from_u8(v: u8) -> (r: Option<Device>)
        ensures
            r == Device::coded(v),
    {
        let all = all_devices();
        if (v as usize) < MAX_DEVICES {
            Some(all[v as usize])
        } else {
            None
        }
    }

    /// Wire and config name, matching the SteamVR serial suffix.
    pub fn label(self) -> (r: &'static str)
        ensures
            r@ == self.name(),
    {
        match self {
            Device::Waist => "waist",
            Device::LeftFoot => "left_foot",
            Device::RightFoot => "right_foot",
            Device::Chest => "chest",
            Device::LeftKnee => "left_knee",
            Device::RightKnee => "right_knee",
            Device::LeftElbow => "left_elbow",
            Device::RightElbow => "right_elbow",
            Device::LeftShoulder => "left_shoulder",
            Device::RightShoulder => "right_shoulder",
            Device::Camera => "camera",
        }
    }

    /// Human-facing name for the role picker.
    pub fn pretty(self) -> (r: &'static str)
        ensures
            r@ == self.title(),
    {
        match self {
            Device::Waist => "Waist / hip",
            Device::LeftFoot => "Left foot",
            Device::RightFoot => "Right foot",
            Device::Chest => "Chest",
            Device::LeftKnee => "Left knee",
            Device::RightKnee => "Right knee",
            Device::LeftElbow => "Left elbow",
            Device::RightElbow => "Right elbow",
            Device::LeftShoulder => "Left shoulder",
            Device::RightShoulder => "Right shoulder",
            Device::Camera => "Camera",
        }
    }
}

/// Every role, in id order.
pub open spec fn all_roles() -> Seq<Device> {
    seq![
        Device::Waist,
        Device::LeftFoot,
        Device::RightFoot,
        Device::Chest,
        Device::LeftKnee,
        Device::RightKnee,
        Device::LeftElbow,
        Device::RightElbow,
        Device::LeftShoulder,
        Device::RightShoulder,
        Device::Camera,
    ]
}

/// Every role, in id order. The one place to add a new one.
pub fn all_devices() -> (r: [Device; MAX_DEVICES])
    ensures
        r@ == all_roles(),
{
    let all: [Device; MAX_DEVICES] = [
        Device::Waist,
        Device::LeftFoot,
        Device::RightFoot,
        Device::Chest,
        Device::LeftKnee,
        Device::RightKnee,
        Device::LeftElbow,
        Device::RightElbow,
        Device::LeftShoulder,
        Device::RightShoulder,
        Device::Camera,
    ];
    proof {
        assert(all@ =~= all_roles());
    }
    all
}

/// A role is found again by its id, and an id names at most one role.
pub proof fn every_role_keeps_its_id(d: Device, v: u8)
    ensures
        Device::coded(d.code()) == Some(d),
        Device::coded(v) == Some(d) <==> v == d.code(),
        Device::coded(v) is Some <==> v < MAX_DEVICES,
{
}

/// No two roles share a label: tracker serials are derived from them, and a
/// duplicate would collapse two roles onto one tracker.
pub proof fn labels_are_unique(a: Device, b: Device)
    ensures
        a.name() == b.name() <==> a == b,
{
    reveal_strlit("waist");
    reveal_strlit("left_foot");
    reveal_strlit("right_foot");
    reveal_strlit("chest");
    reveal_strlit("left_knee");
    reveal_strlit("right_knee");
    reveal_strlit("left_elbow");
    reveal_strlit("right_elbow");
    reveal_strlit("left_shoulder");
    reveal_strlit("right_shoulder");
    reveal_strlit("camera");
    if a.name() == b.name() {
        assert(a.name()[0] == b.name()[0]);
        if a.name().len() >= 9 {
            assert(a.name()[5] == b.name()[5]);
            assert(a.name()[6] == b.name()[6]);
        }
    }
}

/// No two roles read the same in the role picker.
pub proof fn titles_are_unique(a: Device, b: Device)
    ensures
        a.title() == b.title() <==> a == b,
{
    reveal_strlit("Waist / hip");
    reveal_strlit("Left foot");
    reveal_strlit("Right foot");
    reveal_strlit("Chest");
    reveal_strlit("Left knee");
    reveal_strlit("Right knee");
    reveal_strlit("Left elbow");
    reveal_strlit("Right elbow");
    reveal_strlit("Left shoulder");
    reveal_strlit("Right shoulder");
    reveal_strlit("Camera");
    if a.title() == b.title() {
        assert(a.title()[0] == b.title()[0]);
        if a.title().len() >= 9 {
            assert(a.title()[5] == b.title()[5]);
            assert(a.title()[6] == b.title()[6]);
        }
    }
}

/// Position in metres and orientation as a quaternion in (x, y, z, w) order.
/// The frame is gravity-aligned Y-up.
#[derive(Debug, Clone, Copy, PartialEq, Eq)]
pub struct Pose {
    pub p: [Single; 3],
    pub q: [Single; 4],
}

/// Zero.
pub open spec fn zero() -> Single {
    Single { bits: 0 }
}

/// One.
pub open spec fn one() -> Single {
    Single { bits: 0x3F80_0000 }
}

impl Pose {
    /// The pose at the origin, unrotated.
    pub open spec fn origin() -> Pose {
        Pose { p: [zero(), zero(), zero()], q: [zero(), zero(), zero(), one()] }
    }

    /// The pose at the origin, unrotated.
    pub fn identity() -> (r: Pose)
        ensures
            r == Pose::origin(),
    {
        let o = Single { bits: 0 };
        Pose { p: [o, o, o], q: [o, o, o, Single { bits: 0x3F80_0000 }] }
    }
}

impl Default for Pose {
    fn default() -> (r: Pose)
        ensures
            r == Pose::origin(),
    {
        Pose::identity()
    }
}

/// A decoded datagram whose source byte is the role.
#[derive(Debug, Clone, Copy, PartialEq, Eq)]
pub struct Packet {
    pub device: Device,
    /// False means the tracker is alive but not tracking: the pose must not be
    /// consumed.
    pub valid: bool,
    pub battery_pct: u8,
    pub charging: bool,
    /// The instant the pose is for, on the producer's clock.
    pub t_ns: u64,
    pub pose: Pose,
    pub vel: [Single; 3],
    pub angvel: [Single; 3],
}

/// A decoded datagram with the source byte as the sender stamped it.
#[derive(Debug, Clone, Copy, PartialEq, Eq)]
pub struct SourcePacket {
    pub src: u8,
    pub valid: bool,
    pub battery_pct: u8,
    pub charging: bool,
    pub t_ns: u64,
    pub pose: Pose,
    pub vel: [Single; 3],
    pub angvel: [Single; 3],
}

#[derive(Debug, Clone, Copy, PartialEq, Eq, Structural)]
pub enum DecodeError {
    /// Not 68 bytes. Almost always something else on the port.
    WrongLength(usize),
    /// Right size, wrong magic.
    BadMagic(u32),
    /// A device id that names no role.
    BadDevice(u8),
}

impl DecodeError {
    /// How the error reads.
    pub open spec fn text(self) -> Seq<char> {
        match self {
            DecodeError::WrongLength(n) => "expected 68 bytes, got "@ + text::decimal_of(n as nat),
            DecodeError::BadMagic(m) => "bad magic 0x"@ + text::hex_of(m as nat, 8),
            DecodeError::BadDevice(d) => "device id "@ + text::decimal_of(d as nat)
                + " outside 0..10"@,
        }
    }

    /// How the error reads.
    pub fn message(&self) -> (r: String)
        ensures
            r@ == self.text(),
    {
        match self {
            DecodeError::WrongLength(n) => text::glue(
                "expected 68 bytes, got ",
                text::decimal(*n as u64).as_str(),
            ),
            DecodeError::BadMagic(m) => text::glue(
                "bad magic 0x",
                text::hex(*m as u64, 8).as_str(),
            ),
            DecodeError::BadDevice(d) => text::glue3(
                "device id ",
                text::decimal(*d as u64).as_str(),
                " outside 0..10",
            ),
        }
    }
}

/// The number that `b` holds, least significant byte first.
pub open spec fn le(b: Seq<u8>) -> nat
    decreases b.len(),
{
    if b.len() == 0 {
        0
    } else {
        b[0] as nat + 256 * le(b.drop_first())
    }
}

/// The `width` low bytes of `n`, least significant first.
pub open spec fn le_bytes(n: nat, width: nat) -> Seq<u8>
    decreases width,
{
    if width == 0 {
        Seq::empty()
    } else {
        seq![(n % 256) as u8] + le_bytes(n / 256, (width - 1) as nat)
    }
}

/// Each number of `words` as four bytes.
pub open spec fn word_bytes(words: Seq<Single>) -> Seq<u8>
    decreases words.len(),
{
    if words.len() == 0 {
        Seq::empty()
    } else {
        le_bytes(words[0].bits as nat, 4) + word_bytes(words.drop_first())
    }
}

/// The number that the four bytes of `b` at `off` hold.
pub open spec fn word_at(b: Seq<u8>, off: int) -> Single {
    Single { bits: le(b.subrange(off, off + 4)) as u32 }
}

pub open spec fn flag(b: bool) -> u8 {
    if b {
        1
    } else {
        0
    }
}

impl SourcePacket {
    /// The packet's thirteen numbers in wire order.
    pub open spec fn numbers(self) -> Seq<Single> {
        seq![
            self.pose.p[0],
            self.pose.p[1],
            self.pose.p[2],
            self.pose.q[3],
            self.pose.q[0],
            self.pose.q[1],
            self.pose.q[2],
            self.vel[0],
            self.vel[1],
            self.vel[2],
            self.angvel[0],
            self.angvel[1],
            self.angvel[2],
        ]
    }

    /// The packet's bytes.
    pub open spec fn wire(self) -> Seq<u8> {
        le_bytes(MAGIC as nat, 4) + seq![
            self.src,
            flag(self.valid),
            self.battery_pct,
            flag(self.charging),
        ] + le_bytes(self.t_ns as nat, 8) + word_bytes(self.numbers())
    }

    /// What a datagram says.
    pub open spec fn read(b: Seq<u8>) -> Result<SourcePacket, DecodeError> {
        if b.len() != PACKET_LEN {
            Err(DecodeError::WrongLength(b.len() as usize))
        } else if le(b.subrange(0, 4)) != MAGIC {
            Err(DecodeError::BadMagic(le(b.subrange(0, 4)) as u32))
        } else {
            Ok(
                SourcePacket {
                    src: b[4],
                    valid: b[5] != 0,
                    battery_pct: b[6],
                    charging: b[7] % 2 == 1,
                    t_ns: le(b.subrange(8, 16)) as u64,
                    pose: Pose {
                        p: [word_at(b, 16), word_at(b, 20), word_at(b, 24)],
                        q: [word_at(b, 32), word_at(b, 36), word_at(b, 40), word_at(b, 28)],
                    },
                    vel: [word_at(b, 44), word_at(b, 48), word_at(b, 52)],
                    angvel: [word_at(b, 56), word_at(b, 60), word_at(b, 64)],
                },
            )
        }
    }

    /// The same packet, spoken for `device`.
    pub open spec fn spoken_for(self, device: Device) -> Packet {
        Packet {
            device,
            valid: self.valid,
            battery_pct: self.battery_pct,
            charging: self.charging,
            t_ns: self.t_ns,
            pose: self.pose,
            vel: self.vel,
            angvel: self.angvel,
        }
    }

    /// The same packet, spoken for `device`.
    pub fn for_device(&self, device: Device) -> (r: Packet)
        ensures
            r == self.spoken_for(device),
    {
        Packet {
            device,
            valid: self.valid,
            battery_pct: self.battery_pct,
            charging: self.charging,
            t_ns: self.t_ns,
            pose: self.pose,
            vel: self.vel,
            angvel: self.angvel,
        }
    }

    /// Read a datagram, whatever its source byte is.
    pub fn decode(b: &[u8]) -> (r: Result<SourcePacket, DecodeError>)
        ensures
            r == SourcePacket::read(b@),
    {
        if b.len() != PACKET_LEN {
            return Err(DecodeError::WrongLength(b.len()));
        }
        let magic = number_at(b, 0);
        if magic.bits != MAGIC {
            return Err(DecodeError::BadMagic(magic.bits));
        }
        let low = number_at(b, 8);
        let high = number_at(b, 12);
        proof {
            lemma_le_bound(b@.subrange(0, 4));
            lemma_le_bound(b@.subrange(8, 12));
            lemma_le_bound(b@.subrange(12, 16));
            lemma_le_split(b@.subrange(8, 16), 4);
            assert(b@.subrange(8, 16).take(4) =~= b@.subrange(8, 12));
            assert(b@.subrange(8, 16).skip(4) =~= b@.subrange(12, 16));
            vstd::arithmetic::power::lemma_pow1(256);
            assert(vstd::arithmetic::power::pow(256, 4) == 0x1_0000_0000) by {
                reveal(vstd::arithmetic::power::pow);
                reveal_with_fuel(vstd::arithmetic::power::pow, 6);
            }
        }
        let t_ns: u64 = low.bits as u64 + 0x1_0000_0000 * (high.bits as u64);
        // Wire order is qw,qx,qy,qz; Pose holds x,y,z,w.
        Ok(
            SourcePacket {
                src: b[4],
                valid: b[5] != 0,
                battery_pct: b[6],
                charging: b[7] % 2 == 1,
                t_ns,
                pose: Pose {
                    p: [number_at(b, 16), number_at(b, 20), number_at(b, 24)],
                    q: [number_at(b, 32), number_at(b, 36), number_at(b, 40), number_at(b, 28)],
                },
                vel: [number_at(b, 44), number_at(b, 48), number_at(b, 52)],
                angvel: [number_at(b, 56), number_at(b, 60), number_at(b, 64)],
            },
        )
    }

    /// The packet's bytes.
    pub fn encode(&self) -> (r: [u8; PACKET_LEN])
        ensures
            r@ == self.wire(),
    {
        let mut v: Vec<u8> = Vec::new();
        push_le(&mut v, MAGIC as u64, 4);
        v.push(self.src);
        v.push(if self.valid {
            1
        } else {
            0
        });
        v.push(self.battery_pct);
        v.push(if self.charging {
            1
        } else {
            0
        });
        push_le(&mut v, self.t_ns, 8);
        let ghost head = v@;
        let words: [Single; 13] = [
            self.pose.p[0],
            self.pose.p[1],
            self.pose.p[2],
            self.pose.q[3],
            self.pose.q[0],
            self.pose.q[1],
            self.pose.q[2],
            self.vel[0],
            self.vel[1],
            self.vel[2],
            self.angvel[0],
            self.angvel[1],
            self.angvel[2],
        ];
        proof {
            assert(words@ =~= self.numbers());
            assert(head =~= le_bytes(MAGIC as nat, 4) + seq![
                self.src,
                flag(self.valid),
                self.battery_pct,
                flag(self.charging),
            ] + le_bytes(self.t_ns as nat, 8));
            assert(words@.skip(0) =~= words@);
        }
        let mut i: usize = 0;
        while i < 13
            invariant
                i <= 13,
                words@ == self.numbers(),
                self.wire() == v@ + word_bytes(words@.skip(i as int)),
            decreases 13 - i,
        {
            let ghost before = v@;
            push_le(&mut v, words[i].bits as u64, 4);
            proof {
                assert(words@.skip(i as int).drop_first() =~= words@.skip(i + 1));
                assert(before + word_bytes(words@.skip(i as int)) =~= v@ + word_bytes(
                    words@.skip(i + 1),
                ));
            }
            i = i + 1;
        }
        proof {
            assert(words@.skip(13) =~= Seq::<Single>::empty());
            assert(self.wire() =~= v@);
            lemma_wire_len(*self);
        }
        let mut b: [u8; PACKET_LEN] = [0; PACKET_LEN];
        let mut k: usize = 0;
        while k < PACKET_LEN
            invariant
                k <= PACKET_LEN,
                v@ == self.wire(),
                v@.len() == PACKET_LEN,
                forall|j: int| 0 <= j < k ==> b@[j] == v@[j],
            decreases PACKET_LEN - k,
        {
            b[k] = v[k];
            k = k + 1;
        }
        proof {
            assert(b@ =~= v@);
        }
        b
    }
}

impl Packet {
    /// The packet as its sender's bytes would say it.
    pub open spec fn source(self) -> SourcePacket {
        SourcePacket {
            src: self.device.code(),
            valid: self.valid,
            battery_pct: self.battery_pct,
            charging: self.charging,
            t_ns: self.t_ns,
            pose: self.pose,
            vel: self.vel,
            angvel: self.angvel,
        }
    }

    /// What a datagram says where its source byte has to be a role.
    pub open spec fn read(b: Seq<u8>) -> Result<Packet, DecodeError> {
        match SourcePacket::read(b) {
            Err(e) => Err(e),
            Ok(s) => match Device::coded(s.src) {
                Some(d) => Ok(s.spoken_for(d)),
                None => Err(DecodeError::BadDevice(s.src)),
            },
        }
    }

    /// Read a datagram whose source byte is the role.
    pub fn decode(b: &[u8]) -> (r: Result<Packet, DecodeError>)
        ensures
            r == Packet::read(b@),
    {
        match SourcePacket::decode(b) {
            Err(e) => Err(e),
            Ok(s) => match Device::from_u8(s.src) {
                Some(d) => Ok(s.for_device(d)),
                None => Err(DecodeError::BadDevice(s.src)),
            },
        }
    }

    /// The packet's bytes.
    pub fn encode(&self) -> (r: [u8; PACKET_LEN])
        ensures
            r@ == self.source().wire(),
    {
        let s = SourcePacket {
            src: self.device.id(),
            valid: self.valid,
            battery_pct: self.battery_pct,
            charging: self.charging,
            t_ns: self.t_ns,
            pose: self.pose,
            vel: self.vel,
            angvel: self.angvel,
        };
        s.encode()
    }
}

/// Host wall clock in nanoseconds, for stamping packets that originate here:
/// the low 64 bits of the time since the epoch, zero where the clock stands
/// before it.
pub fn now_ns(since_epoch: Option<u128>) -> (r: u64)
    ensures
        r == (match since_epoch {
            Some(d) => d as int % 0x1_0000_0000_0000_0000,
            None => 0,
        }),
{
    match since_epoch {
        Some(d) => (d % 0x1_0000_0000_0000_0000) as u64,
        None => 0,
    }
}

/// The number that the four bytes of `b` at `off` hold.
fn number_at(b: &[u8], off: usize) -> (r: Single)
    requires
        off + 4 <= b.len(),
    ensures
        r == word_at(b@, off as int),
        r.bits == le(b@.subrange(off as int, off + 4)),
{
    let bits: u32 = b[off] as u32 + 256 * (b[off + 1] as u32 + 256 * (b[off + 2] as u32 + 256 * (
    b[off + 3] as u32)));
    proof {
        let s = b@.subrange(off as int, off + 4);
        reveal_with_fuel(le, 5);
        assert(s.drop_first().drop_first().drop_first().drop_first() =~= Seq::<u8>::empty());
    }
    Single { bits }
}

/// Append the `width` low bytes of `n` to `v`.
fn push_le(v: &mut Vec<u8>, n: u64, width: usize)
    ensures
        final(v)@ == old(v)@ + le_bytes(n as nat, width as nat),
{
    let mut i: usize = 0;
    let mut rest: u64 = n;
    let ghost whole = old(v)@ + le_bytes(n as nat, width as nat);
    while i < width
        invariant
            i <= width,
            whole == v@ + le_bytes(rest as nat, (width - i) as nat),
        decreases width - i,
    {
        let ghost before = v@;
        v.push((rest % 256) as u8);
        proof {
            assert(v@ + le_bytes((rest / 256) as nat, (width - i - 1) as nat) =~= before
                + le_bytes(rest as nat, (width - i) as nat));
        }
        rest = rest / 256;
        i = i + 1;
    }
    proof {
        assert(v@ =~= whole);
    }
}

proof fn lemma_le_bytes_len(n: nat, width: nat)
    ensures
        le_bytes(n, width).len() == width,
    decreases width,
{
    if width > 0 {
        lemma_le_bytes_len(n / 256, (width - 1) as nat);
    }
}

proof fn lemma_word_bytes_len(words: Seq<Single>)
    ensures
        word_bytes(words).len() == 4 * words.len(),
    decreases words.len(),
{
    if words.len() > 0 {
        lemma_le_bytes_len(words[0].bits as nat, 4);
        lemma_word_bytes_len(words.drop_first());
    }
}

proof fn lemma_wire_len(p: SourcePacket)
    ensures
        p.wire().len() == PACKET_LEN,
{
    lemma_le_bytes_len(MAGIC as nat, 4);
    lemma_le_bytes_len(p.t_ns as nat, 8);
    lemma_word_bytes_len(p.numbers());
}

/// A run of `k` bytes holds a number below 256^k.
proof fn lemma_le_bound(b: Seq<u8>)
    ensures
        le(b) < vstd::arithmetic::power::pow(256, b.len()),
    decreases b.len(),
{
    reveal(vstd::arithmetic::power::pow);
    if b.len() > 0 {
        lemma_le_bound(b.drop_first());
    }
}

/// The bytes from `n` on count 256^n times.
proof fn lemma_le_split(b: Seq<u8>, n: nat)
    requires
        n <= b.len(),
    ensures
        le(b) == le(b.take(n as int)) + vstd::arithmetic::power::pow(256, n) * le(b.skip(n as int)),
    decreases n,
{
    reveal(vstd::arithmetic::power::pow);
    if n == 0 {
        assert(b.take(0) =~= Seq::<u8>::empty());
        assert(b.skip(0) =~= b);
    } else {
        let t = b.drop_first();
        lemma_le_split(t, (n - 1) as nat);
        assert(b.take(n as int).drop_first() =~= t.take(n - 1));
        assert(b.skip(n as int) =~= t.skip(n - 1));
        let q = vstd::arithmetic::power::pow(256, (n - 1) as nat);
        let w = le(b.skip(n as int)) as int;
        assert(256 * (q * w) == (256 * q) * w) by (nonlinear_arith);
    }
}

/// The low bytes of a number that fits in them hold it.
proof fn lemma_le_round_trip(n: nat, width: nat)
    requires
        n < vstd::arithmetic::power::pow(256, width),
    ensures
        le(le_bytes(n, width)) == n,
    decreases width,
{
    reveal(vstd::arithmetic::power::pow);
    if width > 0 {
        let q = vstd::arithmetic::power::pow(256, (width - 1) as nat);
        assert(n / 256 < q) by (nonlinear_arith)
            requires
                n < 256 * q,
        ;
        lemma_le_round_trip(n / 256, (width - 1) as nat);
        assert(le_bytes(n, width).drop_first() =~= le_bytes(n / 256, (width - 1) as nat));
    }
}

/// A run of bytes is the low bytes of the number it holds.
proof fn lemma_bytes_round_trip(b: Seq<u8>)
    ensures
        le_bytes(le(b), b.len()) == b,
    decreases b.len(),
{
    if b.len() > 0 {
        lemma_bytes_round_trip(b.drop_first());
        assert(b =~= seq![b[0]] + b.drop_first());
    } else {
        assert(b =~= Seq::<u8>::empty());
    }
}

proof fn lemma_word_round_trip(w: Single)
    ensures
        le(le_bytes(w.bits as nat, 4)) == w.bits,
{
    reveal(vstd::arithmetic::power::pow);
    reveal_with_fuel(vstd::arithmetic::power::pow, 6);
    lemma_le_round_trip(w.bits as nat, 4);
}

/// The `i`-th of `words` stands at `4 * i`.
proof fn lemma_word_place(words: Seq<Single>, i: int)
    requires
        0 <= i < words.len(),
    ensures
        word_bytes(words).subrange(4 * i, 4 * i + 4) == le_bytes(words[i].bits as nat, 4),
        word_bytes(words).len() == 4 * words.len(),
    decreases words.len(),
{
    lemma_word_bytes_len(words);
    lemma_le_bytes_len(words[0].bits as nat, 4);
    let rest = word_bytes(words.drop_first());
    if i == 0 {
        assert(word_bytes(words).subrange(0, 4) =~= le_bytes(words[0].bits as nat, 4));
    } else {
        lemma_word_place(words.drop_first(), i - 1);
        assert(word_bytes(words).subrange(4 * i, 4 * i + 4) =~= rest.subrange(
            4 * (i - 1),
            4 * (i - 1) + 4,
        ));
    }
}

/// The `i`-th number of a packet stands at `16 + 4 * i`.
proof fn lemma_number_place(p: SourcePacket, i: int)
    requires
        0 <= i < 13,
    ensures
        word_at(p.wire(), 16 + 4 * i) == p.numbers()[i],
{
    lemma_le_bytes_len(MAGIC as nat, 4);
    lemma_le_bytes_len(p.t_ns as nat, 8);
    lemma_word_place(p.numbers(), i);
    lemma_word_round_trip(p.numbers()[i]);
    assert(p.wire().subrange(16 + 4 * i, 20 + 4 * i) =~= word_bytes(p.numbers()).subrange(
        4 * i,
        4 * i + 4,
    ));
}

/// Decoding gives back what was encoded, whatever the source byte.
pub proof fn source_round_trip(p: SourcePacket)
    ensures
        SourcePacket::read(p.wire()) == Ok::<SourcePacket, DecodeError>(p),
{
    let b = p.wire();
    lemma_wire_len(p);
    lemma_le_bytes_len(MAGIC as nat, 4);
    lemma_le_bytes_len(p.t_ns as nat, 8);
    assert(b.subrange(0, 4) =~= le_bytes(MAGIC as nat, 4));
    assert(b.subrange(8, 16) =~= le_bytes(p.t_ns as nat, 8));
    lemma_word_round_trip(Single { bits: MAGIC });
    assert(le(le_bytes(p.t_ns as nat, 8)) == p.t_ns) by {
        reveal(vstd::arithmetic::power::pow);
        reveal_with_fuel(vstd::arithmetic::power::pow, 10);
        lemma_le_round_trip(p.t_ns as nat, 8);
    }
    lemma_number_place(p, 0);
    lemma_number_place(p, 1);
    lemma_number_place(p, 2);
    lemma_number_place(p, 3);
    lemma_number_place(p, 4);
    lemma_number_place(p, 5);
    lemma_number_place(p, 6);
    lemma_number_place(p, 7);
    lemma_number_place(p, 8);
    lemma_number_place(p, 9);
    lemma_number_place(p, 10);
    lemma_number_place(p, 11);
    lemma_number_place(p, 12);
    let back = SourcePacket::read(b)->Ok_0;
    assert(back.pose.p =~= p.pose.p);
    assert(back.pose.q =~= p.pose.q);
    assert(back.vel =~= p.vel);
    assert(back.angvel =~= p.angvel);
}

/// Decoding gives back what was encoded.
pub proof fn round_trip(p: Packet)
    ensures
        Packet::read(p.source().wire()) == Ok::<Packet, DecodeError>(p),
{
    source_round_trip(p.source());
    every_role_keeps_its_id(p.device, p.device.code());
}

/// Numbers read one after the other write the bytes they were read from.
proof fn lemma_words_read(b: Seq<u8>, off: int, words: Seq<Single>)
    requires
        0 <= off,
        off + 4 * words.len() <= b.len(),
        forall|i: int| 0 <= i < words.len() ==> #[trigger] words[i] == word_at(b, off + 4 * i),
    ensures
        word_bytes(words) == b.subrange(off, off + 4 * words.len()),
    decreases words.len(),
{
    if words.len() > 0 {
        let rest = words.drop_first();
        assert forall|i: int| 0 <= i < rest.len() implies #[trigger] rest[i] == word_at(
            b,
            off + 4 + 4 * i,
        ) by {
            assert(rest[i] == words[i + 1]);
        }
        lemma_words_read(b, off + 4, rest);
        let first = b.subrange(off, off + 4);
        lemma_bytes_round_trip(first);
        lemma_le_bound(first);
        reveal(vstd::arithmetic::power::pow);
        reveal_with_fuel(vstd::arithmetic::power::pow, 6);
        assert(words[0] == word_at(b, off + 4 * 0));
        assert(first + b.subrange(off + 4, off + 4 + 4 * rest.len()) =~= b.subrange(
            off,
            off + 4 * words.len(),
        ));
    } else {
        assert(b.subrange(off, off) =~= Seq::<u8>::empty());
    }
}

/// Encoding gives back the bytes of a datagram whose two flag bytes are 0 or 1,
/// as every sender of this format writes them.
pub proof fn bytes_round_trip(b: Seq<u8>)
    requires
        SourcePacket::read(b) is Ok,
        b[5] <= 1,
        b[7] <= 1,
    ensures
        SourcePacket::read(b)->Ok_0.wire() == b,
{
    let p = SourcePacket::read(b)->Ok_0;
    reveal(vstd::arithmetic::power::pow);
    reveal_with_fuel(vstd::arithmetic::power::pow, 10);
    lemma_bytes_round_trip(b.subrange(0, 4));
    lemma_bytes_round_trip(b.subrange(8, 16));
    lemma_le_bound(b.subrange(8, 16));
    lemma_words_read(b, 16, p.numbers());
    assert(p.wire() =~= b.subrange(0, 4) + seq![b[4], b[5], b[6], b[7]] + b.subrange(8, 16)
        + b.subrange(16, 68));
    assert(p.wire() =~= b);
}

/// Distinct packets have distinct bytes.
pub proof fn encoding_is_unambiguous(a: SourcePacket, b: SourcePacket)
    ensures
        a.wire() == b.wire() <==> a == b,
{
    source_round_trip(a);
    source_round_trip(b);
}

/// Four bytes of `b` from `off` on, the least significant first.
pub open spec fn quad(b: Seq<u8>, off: int) -> int {
    b[off] + 0x100 * b[off + 1] + 0x1_0000 * b[off + 2] + 0x100_0000 * b[off + 3]
}

/// `p` is what the bytes `b` say, field by field, each at its offset.
pub open spec fn laid_out(p: SourcePacket, b: Seq<u8>) -> bool {
    &&& b.len() == 68
    &&& b[0] == 0x4D && b[1] == 0x50 && b[2] == 0x54 && b[3] == 0x31
    &&& p.src == b[4]
    &&& p.valid <==> b[5] != 0
    &&& p.battery_pct == b[6]
    &&& p.charging <==> b[7] % 2 == 1
    &&& p.t_ns == quad(b, 8) + 0x1_0000_0000 * quad(b, 12)
    &&& p.pose.p[0].bits == quad(b, 16)
    &&& p.pose.p[1].bits == quad(b, 20)
    &&& p.pose.p[2].bits == quad(b, 24)
    &&& p.pose.q[3].bits == quad(b, 28)
    &&& p.pose.q[0].bits == quad(b, 32)
    &&& p.pose.q[1].bits == quad(b, 36)
    &&& p.pose.q[2].bits == quad(b, 40)
    &&& p.vel[0].bits == quad(b, 44)
    &&& p.vel[1].bits == quad(b, 48)
    &&& p.vel[2].bits == quad(b, 52)
    &&& p.angvel[0].bits == quad(b, 56)
    &&& p.angvel[1].bits == quad(b, 60)
    &&& p.angvel[2].bits == quad(b, 64)
}

proof fn lemma_quad(b: Seq<u8>, off: int)
    requires
        0 <= off,
        off + 4 <= b.len(),
    ensures
        le(b.subrange(off, off + 4)) == quad(b, off),
        0 <= quad(b, off) <= u32::MAX,
        word_at(b, off).bits == quad(b, off),
{
    let s = b.subrange(off, off + 4);
    reveal_with_fuel(le, 5);
    assert(s.drop_first().drop_first().drop_first().drop_first() =~= Seq::<u8>::empty());
    assert(s.drop_first()[0] == b[off + 1]);
    assert(s.drop_first().drop_first()[0] == b[off + 2]);
    assert(s.drop_first().drop_first().drop_first()[0] == b[off + 3]);
}

proof fn lemma_octet(b: Seq<u8>, off: int)
    requires
        0 <= off,
        off + 8 <= b.len(),
    ensures
        le(b.subrange(off, off + 8)) == quad(b, off) + 0x1_0000_0000 * quad(b, off + 4),
{
    let s = b.subrange(off, off + 8);
    lemma_le_split(s, 4);
    assert(s.take(4) =~= b.subrange(off, off + 4));
    assert(s.skip(4) =~= b.subrange(off + 4, off + 8));
    lemma_quad(b, off);
    lemma_quad(b, off + 4);
    assert(vstd::arithmetic::power::pow(256, 4) == 0x1_0000_0000) by {
        reveal(vstd::arithmetic::power::pow);
        reveal_with_fuel(vstd::arithmetic::power::pow, 6);
    }
}

/// Every field is read from its own bytes: position x, y, z from 16 on, then the
/// quaternion with w first, then both velocities. A datagram is read exactly where
/// it has 68 bytes that begin with the letters MPT1; otherwise the error says how
/// long it is, or what it begins with.
pub proof fn fields_are_read_at_their_offsets(b: Seq<u8>)
    requires
        b.len() <= usize::MAX,
    ensures
        match SourcePacket::read(b) {
            Ok(p) => laid_out(p, b),
            Err(DecodeError::WrongLength(n)) => n == b.len() && n != 68,
            Err(DecodeError::BadMagic(m)) => b.len() == 68 && m == quad(b, 0) && !(b[0] == 0x4D
                && b[1] == 0x50 && b[2] == 0x54 && b[3] == 0x31),
            Err(DecodeError::BadDevice(_)) => false,
        },
{
    if b.len() == PACKET_LEN {
        lemma_quad(b, 0);
        lemma_octet(b, 8);
        lemma_quad(b, 8);
        lemma_quad(b, 12);
        lemma_quad(b, 16);
        lemma_quad(b, 20);
        lemma_quad(b, 24);
        lemma_quad(b, 28);
        lemma_quad(b, 32);
        lemma_quad(b, 36);
        lemma_quad(b, 40);
        lemma_quad(b, 44);
        lemma_quad(b, 48);
        lemma_quad(b, 52);
        lemma_quad(b, 56);
        lemma_quad(b, 60);
        lemma_quad(b, 64);
    }
}

/// Every field is written to its own bytes, and the two flags as 0 or 1.
pub proof fn fields_are_written_at_their_offsets(p: SourcePacket)
    ensures
        laid_out(p, p.wire()),
        p.wire()[5] <= 1,
        p.wire()[7] <= 1,
{
    source_round_trip(p);
    lemma_wire_len(p);
    fields_are_read_at_their_offsets(p.wire());
    lemma_le_bytes_len(MAGIC as nat, 4);
    assert(p.wire()[5] == flag(p.valid));
    assert(p.wire()[7] == flag(p.charging));
}

/// `p` is what the bytes `b` say, where the source byte is the role.
pub open spec fn role_laid_out(p: Packet, b: Seq<u8>) -> bool {
    laid_out(
        SourcePacket {
            src: b[4],
            valid: p.valid,
            battery_pct: p.battery_pct,
            charging: p.charging,
            t_ns: p.t_ns,
            pose: p.pose,
            vel: p.vel,
            angvel: p.angvel,
        },
        b,
    ) && p.device.code() == b[4]
}

/// Where the source byte has to be a role, the role is the one with that byte for
/// its id, and every other field is read as from any datagram; a byte that is no
/// role's id is refused, and nothing else is refused that is not refused anyway. What
/// is written is laid out in the same way.
pub proof fn a_role_is_read_from_the_source_byte(b: Seq<u8>, p: Packet)
    requires
        b.len() <= usize::MAX,
    ensures
        role_laid_out(p, p.source().wire()),
        match Packet::read(b) {
            Ok(p) => role_laid_out(p, b),
            Err(DecodeError::BadDevice(d)) => SourcePacket::read(b) is Ok && d == b[4] && d >= 11,
            Err(e) => SourcePacket::read(b) == Err::<SourcePacket, DecodeError>(e),
        },
{
    fields_are_read_at_their_offsets(b);
    fields_are_written_at_their_offsets(p.source());
    if let Ok(s) = SourcePacket::read(b) {
        if let Some(d) = Device::coded(s.src) {
            every_role_keeps_its_id(d, s.src);
        }
    }
}

/// The ids are those that trackers and driver agree on: counted from zero, the waist,
/// the feet, the chest, the knees, the elbows, the shoulders, each left before right,
/// and the camera.
pub proof fn ids_are_the_agreed_ones(d: Device)
    ensures
        d.code() < 11,
        d.name() == seq![
            "waist"@,
            "left_foot"@,
            "right_foot"@,
            "chest"@,
            "left_knee"@,
            "right_knee"@,
            "left_elbow"@,
            "right_elbow"@,
            "left_shoulder"@,
            "right_shoulder"@,
            "camera"@,
        ][d.code() as int],
        d.title() == seq![
            "Waist / hip"@,
            "Left foot"@,
            "Right foot"@,
            "Chest"@,
            "Left knee"@,
            "Right knee"@,
            "Left elbow"@,
            "Right elbow"@,
            "Left shoulder"@,
            "Right shoulder"@,
            "Camera"@,
        ][d.code() as int],
{
}

} // verus!
