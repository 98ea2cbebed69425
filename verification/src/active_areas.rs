//! The parts of the screen that answer to a tap.

use crate::gestures::Location;
use vstd::prelude::*;

verus! {

/// What a tap does.
#[derive(Debug, Clone, Copy, PartialEq, Eq, Structural)]
pub enum ActiveAreaAction {
    ToggleUi,
    NextPage,
    PreviousPage,
}

/// A rectangle of the screen, its upper bounds left out, and what a tap in
/// it does.
#[derive(Debug, Clone, Copy, PartialEq, Eq, Structural)]
pub struct ActiveArea {
    pub action: ActiveAreaAction,
    pub x_min: u32,
    pub x_max: u32,
    pub y_min: u32,
    pub y_max: u32,
}

impl ActiveArea {
    pub open spec fn spec_contains(&self, pos: Location) -> bool {
        self.x_min <= pos.x < self.x_max && self.y_min <= pos.y < self.y_max
    }

    #[verifier::when_used_as_spec(spec_contains)]
    pub fn contains(&self, pos: Location) -> (b: bool)
        ensures
            b == self.spec_contains(pos),
    {
        pos.x >= self.x_min && pos.x < self.x_max && pos.y >= self.y_min && pos.y < self.y_max
    }
}

/// The three areas of the reader.
#[derive(Debug)]
pub struct ActiveAreas {
    areas: [ActiveArea; 3],
}

/// What a tap at `pos` does on a screen of `width` by `height`: the left
/// quarter turns the page back, the right quarter (and what is left over of
/// a width that four does not divide) turns it on, the half between them
/// shows or hides the controls. A tap outside the screen does nothing.
pub open spec fn tap_action(width: u32, height: u32, pos: Location) -> Option<ActiveAreaAction> {
    let fourth = width / 4;
    if pos.y >= height {
        None
    } else if pos.x < fourth {
        Some(ActiveAreaAction::PreviousPage)
    } else if pos.x < 3 * fourth {
        Some(ActiveAreaAction::ToggleUi)
    } else if pos.x < width {
        Some(ActiveAreaAction::NextPage)
    } else {
        None
    }
}

impl Default for ActiveAreas {
    fn default() -> (a: Self)
        ensures
            a.screen() == (0u32, 0u32),
    {
        Self::new(0, 0)
    }
}

impl ActiveAreas {
    /// Width and height of the screen that the areas were made for.
    pub closed spec fn screen(&self) -> (u32, u32) {
        (self.areas@[2].x_max, self.areas@[2].y_max)
    }

    spec fn laid_out(&self) -> bool {
        let (width, height) = self.screen();
        let fourth = (width / 4) as u32;
        self.areas@ == seq![
            ActiveArea {
                action: ActiveAreaAction::PreviousPage,
                x_min: 0,
                x_max: fourth,
                y_min: 0,
                y_max: height,
            },
            ActiveArea {
                action: ActiveAreaAction::ToggleUi,
                x_min: fourth,
                x_max: (3 * fourth) as u32,
                y_min: 0,
                y_max: height,
            },
            ActiveArea {
                action: ActiveAreaAction::NextPage,
                x_min: (3 * fourth) as u32,
                x_max: width,
                y_min: 0,
                y_max: height,
            },
        ]
    }

    #[verifier::type_invariant]
    spec fn inv(&self) -> bool {
        self.laid_out()
    }

    /// The areas of a screen of `width` by `height`.
    pub fn new(width: u32, height: u32) -> (a: Self)
        ensures
            a.screen() == (width, height),
    {
        let forth = width / 4;
        let areas = [
            ActiveArea {
                action: ActiveAreaAction::PreviousPage,
                x_min: 0,
                x_max: forth,
                y_min: 0,
                y_max: height,
            },
            ActiveArea {
                action: ActiveAreaAction::ToggleUi,
                x_min: forth,
                x_max: 3 * forth,
                y_min: 0,
                y_max: height,
            },
            ActiveArea {
                action: ActiveAreaAction::NextPage,
                x_min: 3 * forth,
                x_max: width,
                y_min: 0,
                y_max: height,
            },
        ];
        let a = Self { areas };
        assert(a.areas@ =~= seq![areas@[0], areas@[1], areas@[2]]);
        a
    }

    /// What a tap at `pos` does.
    pub fn action(&self, pos: Location) -> (r: Option<ActiveAreaAction>)
        ensures
            r == tap_action(self.screen().0, self.screen().1, pos),
    {
        proof {
            use_type_invariant(self);
        }
        let mut i: usize = 0;
        while i < 3
            invariant
                i <= 3,
                self.laid_out(),
                forall|j: int| 0 <= j < i ==> !self.areas@[j].contains(pos),
            decreases 3 - i,
        {
            if self.areas[i].contains(pos) {
                return Some(self.areas[i].action);
            }
            i = i + 1;
        }
        None
    }
}

} // verus!
