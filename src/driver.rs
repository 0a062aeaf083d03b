use vstd::prelude::*;
use crate::error::KernelError;

verus! {

/// The sixteen colours of the text-mode palette.
#[derive(Debug, Clone, Copy, PartialEq, Eq, Structural)]
pub enum Color {
    Black,
    Blue,
    Green,
    Cyan,
    Red,
    Magenta,
    Brown,
    LightGray,
    DarkGray,
    LightBlue,
    LightGreen,
    LightCyan,
    LightRed,
    Pink,
    Yellow,
    White,
}

/// Palette index of each colour.
pub open spec fn color_index(c: Color) -> u8 {
    match c {
        Color::Black => 0,
        Color::Blue => 1,
        Color::Green => 2,
        Color::Cyan => 3,
        Color::Red => 4,
        Color::Magenta => 5,
        Color::Brown => 6,
        Color::LightGray => 7,
        Color::DarkGray => 8,
        Color::LightBlue => 9,
        Color::LightGreen => 10,
        Color::LightCyan => 11,
        Color::LightRed => 12,
        Color::Pink => 13,
        Color::Yellow => 14,
        Color::White => 15,
    }
}

impl Color {
    /// Palette index of the colour.
    pub fn index(&self) -> (r: u8)
        ensures
            r == color_index(*self),
            r < 16,
    {
        match self {
            Color::Black => 0,
            Color::Blue => 1,
            Color::Green => 2,
            Color::Cyan => 3,
            Color::Red => 4,
            Color::Magenta => 5,
            Color::Brown => 6,
            Color::LightGray => 7,
            Color::DarkGray => 8,
            Color::LightBlue => 9,
            Color::LightGreen => 10,
            Color::LightCyan => 11,
            Color::LightRed => 12,
            Color::Pink => 13,
            Color::Yellow => 14,
            Color::White => 15,
        }
    }
}

/// Attribute byte of a text cell: background in the high nibble,
/// foreground in the low one.
#[derive(Debug, Clone, Copy, PartialEq, Eq, Structural)]
pub struct ColorCode(pub u8);

impl ColorCode {
    pub fn new(foreground: Color, background: Color) -> (r: Self)
        ensures
            r.0 == color_index(background) * 16 + color_index(foreground),
    {
        ColorCode(background.index() * 16 + foreground.index())
    }
}

/// Largest number of drivers that the driver scheduler polls.
pub const MAX_DRIVERS: usize = 8;

/// The drivers to poll, as handles into the driver arena, in the order
/// they were added.
pub struct DriverScheduler {
    drivers: Vec<u32>,
}

impl DriverScheduler {
    /// Handles of the registered drivers, in order.
    pub closed spec fn handles(&self) -> Seq<u32> {
        self.drivers@
    }

    pub fn new() -> (r: Self)
        ensures
            r.handles() == Seq::<u32>::empty(),
    {
        DriverScheduler { drivers: Vec::new() }
    }

    /// Appends the driver with handle `driver`. Fails with `ResourceBusy`
    /// once `MAX_DRIVERS` are registered.
    pub fn add_driver(&mut self, driver: u32) -> (r: Result<(), KernelError>)
        ensures
            old(self).handles().len() < MAX_DRIVERS ==> r is Ok && final(self).handles() == old(
                self,
            ).handles().push(driver),
            old(self).handles().len() >= MAX_DRIVERS ==> r == Err::<(), KernelError>(
                KernelError::ResourceBusy,
            ) && final(self).handles() == old(self).handles(),
    {
        if self.drivers.len() >= MAX_DRIVERS {
            return Err(KernelError::ResourceBusy);
        }
        self.drivers.push(driver);
        Ok(())
    }

    /// Handles of the registered drivers, in order.
    pub fn drivers(&self) -> (r: Vec<u32>)
        ensures
            r@ == self.handles(),
    {
        self.drivers.clone()
    }
}

} // verus!
