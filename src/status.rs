use vstd::prelude::*;

verus! {

/// Shipment stage of an order. Orders start `Shipped` and move one stage at a time.
#[derive(PartialEq, Eq, Structural, Clone, Copy, Debug)]
pub enum Status {
    Shipped,
    InTransit,
    Delivered,
}

/// Numeric stage of a status, as stored: 1, 2 or 3.
pub open spec fn rank(s: Status) -> int {
    match s {
        Status::Shipped => 1,
        Status::InTransit => 2,
        Status::Delivered => 3,
    }
}

/// The status whose stage is `n`, if `n` is one of 1, 2, 3.
pub open spec fn status_of_rank(n: int) -> Option<Status> {
    if n == 1 {
        Some(Status::Shipped)
    } else if n == 2 {
        Some(Status::InTransit)
    } else if n == 3 {
        Some(Status::Delivered)
    } else {
        None
    }
}

/// One stage forward, staying at `Delivered`.
pub open spec fn advanced(s: Status) -> Status {
    match s {
        Status::Shipped => Status::InTransit,
        Status::InTransit => Status::Delivered,
        Status::Delivered => Status::Delivered,
    }
}

/// One stage back, staying at `Shipped`.
pub open spec fn reverted(s: Status) -> Status {
    match s {
        Status::Shipped => Status::Shipped,
        Status::InTransit => Status::Shipped,
        Status::Delivered => Status::InTransit,
    }
}

/// Human-readable name of a stage.
pub open spec fn label_of(s: Status) -> Seq<char> {
    match s {
        Status::Shipped => "Shipped"@,
        Status::InTransit => "In Transit"@,
        Status::Delivered => "Delivered"@,
    }
}

impl Status {
    /// The stage number stored for this status.
    pub fn code(self) -> (r: u8)
        ensures
            r as int == rank(self),
    {
        match self {
            Status::Shipped => 1,
            Status::InTransit => 2,
            Status::Delivered => 3,
        }
    }

    /// Reads a stored stage number; any value but 1, 2, 3 gives `None`.
    pub fn from_code(c: u8) -> (r: Option<Status>)
        ensures
            r == status_of_rank(c as int),
            r matches Some(s) ==> rank(s) == c as int,
    {
        if c == 1 {
            Some(Status::Shipped)
        } else if c == 2 {
            Some(Status::InTransit)
        } else if c == 3 {
            Some(Status::Delivered)
        } else {
            None
        }
    }

    /// The next stage; `Delivered` stays `Delivered`.
    pub fn advance(self) -> (r: Status)
        ensures
            r == advanced(self),
            rank(r) == if rank(self) < 3 { rank(self) + 1 } else { 3 },
    {
        match self {
            Status::Shipped => Status::InTransit,
            Status::InTransit => Status::Delivered,
            Status::Delivered => Status::Delivered,
        }
    }

    /// The previous stage; `Shipped` stays `Shipped`.
    pub fn revert(self) -> (r: Status)
        ensures
            r == reverted(self),
            rank(r) == if rank(self) > 1 { rank(self) - 1 } else { 1 },
    {
        match self {
            Status::Shipped => Status::Shipped,
            Status::InTransit => Status::Shipped,
            Status::Delivered => Status::InTransit,
        }
    }

    /// Whether the shipment has reached stage `stage` (1 to 3); unreached stages are shown greyed out.
    pub fn reached(self, stage: u8) -> (r: bool)
        ensures
            r == (stage as int <= rank(self)),
    {
        stage <= self.code()
    }

    /// Display name of the stage.
    pub fn label(self) -> (r: &'static str)
        ensures
            r@ == label_of(self),
    {
        match self {
            Status::Shipped => "Shipped",
            Status::InTransit => "In Transit",
            Status::Delivered => "Delivered",
        }
    }
}

/// Clamping at the ends is idempotent: reverting `Shipped` leaves it `Shipped`,
/// advancing `Delivered` leaves it `Delivered`, however often it is repeated.
pub proof fn lemma_clamp_at_ends()
    ensures
        reverted(Status::Shipped) == Status::Shipped,
        advanced(Status::Delivered) == Status::Delivered,
        reverted(reverted(Status::Shipped)) == Status::Shipped,
        advanced(advanced(Status::Delivered)) == Status::Delivered,
{
}

/// Advancing and then reverting returns any status below `Delivered` to itself,
/// and reverting then advancing returns any status above `Shipped` to itself.
pub proof fn lemma_advance_revert_round_trip(s: Status)
    ensures
        s != Status::Delivered ==> reverted(advanced(s)) == s,
        s != Status::Shipped ==> advanced(reverted(s)) == s,
        reverted(advanced(Status::InTransit)) == Status::InTransit,
{
}

} // verus!
