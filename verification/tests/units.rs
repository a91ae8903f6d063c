//! Scalar-plus-unit arithmetic on simple measurement newtypes, one per
//! underlying scalar kind.

#[derive(Debug, Clone, Copy, PartialEq, PartialOrd)]
struct Degree(pub f64);

impl std::ops::Add<Degree> for f64 {
    type Output = Degree;
    fn add(self, rhs: Degree) -> Degree {
        Degree(self + rhs.0)
    }
}

#[derive(Debug, Clone, Copy, PartialEq, Eq, PartialOrd, Ord, Hash)]
struct Millisecond(pub i64);

impl std::ops::Add<Millisecond> for i64 {
    type Output = Millisecond;
    fn add(self, rhs: Millisecond) -> Millisecond {
        Millisecond(self + rhs.0)
    }
}

#[derive(Debug, Clone, Copy, PartialEq, Eq, PartialOrd, Ord, Hash)]
struct Microsecond(pub u64);

impl std::ops::Add<Microsecond> for u64 {
    type Output = Microsecond;
    fn add(self, rhs: Microsecond) -> Microsecond {
        Microsecond(self + rhs.0)
    }
}

#[test]
fn ops() {
    let deg = Degree(1.0);
    let new_deg = 1.0f64 + deg;
    assert_eq!(new_deg, Degree(2.0));

    let milli = Millisecond(-1);
    let new_milli = 1i64 + milli;
    assert_eq!(new_milli, Millisecond(0));

    let micro = Microsecond(1);
    let new_micro = 1u64 + micro;
    assert_eq!(new_micro, Microsecond(2));
}
