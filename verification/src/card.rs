//! The canonical card entity and its one-line text rendering.

use vstd::prelude::*;

use crate::row::{Foil, ParsedRow, ParsedRowView};
use crate::text::{
    dec_digits, push_bytes, render_decimal,
    COLON, LEFT_PAREN, LOWER_F, LOWER_X, RIGHT_PAREN, SPACE, STAR,
};

verus! {

/// Canonical output entity: one owned card print, immutable once built.
pub struct Card {
    /// Number of owned copies.
    pub quantity: usize,
    /// Card name.
    pub name: Vec<u8>,
    /// Short code of the print set.
    pub set: Vec<u8>,
    /// Print-specific collector marking, an opaque string.
    pub collector_number: Vec<u8>,
    /// Is this the plain foil finish?
    pub is_foil: bool,
}

/// Mathematical image of a card.
#[verifier::ext_equal]
pub ghost struct CardView {
    /// Number of owned copies.
    pub quantity: nat,
    /// Card name.
    pub name: Seq<u8>,
    /// Short code of the print set.
    pub set: Seq<u8>,
    /// Collector marking.
    pub collector_number: Seq<u8>,
    /// Is this the plain foil finish?
    pub is_foil: bool,
}

impl View for Card {
    type V = CardView;

    open spec fn view(&self) -> CardView {
        CardView {
            quantity: self.quantity as nat,
            name: self.name@,
            set: self.set@,
            collector_number: self.collector_number@,
            is_foil: self.is_foil,
        }
    }
}

/// Canonical card of an accepted row: quantity, name, set code and
/// collector marking copy over; the card is foil exactly when the row's
/// finish is plain `Foil`, so an `Etched` finish is not foil.
pub open spec fn spec_normalize(row: ParsedRowView) -> CardView {
    CardView {
        quantity: row.quantity,
        name: row.name,
        set: row.set_code,
        collector_number: row.collector_number,
        is_foil: row.foil == Foil::Foil,
    }
}

/// One rendered decklist line for a card:
/// `{quantity}x {name} ({set}:{collector_number})`, with ` *f*` appended
/// for a foil card. No line terminator.
pub open spec fn spec_render_line(c: CardView) -> Seq<u8> {
    dec_digits(c.quantity) + seq![LOWER_X, SPACE] + c.name + seq![SPACE, LEFT_PAREN] + c.set
        + seq![COLON] + c.collector_number + seq![RIGHT_PAREN] + (if c.is_foil {
        seq![SPACE, STAR, LOWER_F, STAR]
    } else {
        Seq::<u8>::empty()
    })
}

impl Card {
    /// Normalizes an accepted row into its canonical card.
    pub fn from_row(row: ParsedRow) -> (c: Card)
        ensures
            c@ == spec_normalize(row@),
    {
        let c = Card {
            quantity: row.quantity,
            name: row.name,
            set: row.set_code,
            collector_number: row.collector_number,
            is_foil: row.foil == Foil::Foil,
        };
        proof {
            assert(c@ =~= spec_normalize(row@));
        }
        c
    }

    /// Renders the card's one output line.
    pub fn render_line(&self) -> (r: Vec<u8>)
        ensures
            r@ == spec_render_line(self@),
    {
        let mut out = render_decimal(self.quantity);
        out.push(LOWER_X);
        out.push(SPACE);
        push_bytes(&mut out, self.name.as_slice());
        out.push(SPACE);
        out.push(LEFT_PAREN);
        push_bytes(&mut out, self.set.as_slice());
        out.push(COLON);
        push_bytes(&mut out, self.collector_number.as_slice());
        out.push(RIGHT_PAREN);
        if self.is_foil {
            out.push(SPACE);
            out.push(STAR);
            out.push(LOWER_F);
            out.push(STAR);
        }
        proof {
            assert(out@ =~= spec_render_line(self@));
        }
        out
    }
}

} // verus!
