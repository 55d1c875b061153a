//! A listing of a Japanese real estate property.

use vstd::prelude::*;

verus! {

/// The formal written form of a Japanese address: the components one after
/// another, with `丁目` after the chome, `番地` after the banchi and `号`
/// after the go.
pub open spec fn address_of(
    prefecture: Seq<char>,
    city: Seq<char>,
    town: Seq<char>,
    chome: Seq<char>,
    banchi: Seq<char>,
    go: Seq<char>,
    building: Seq<char>,
) -> Seq<char> {
    prefecture + city + town + chome + seq!['丁', '目'] + banchi + seq!['番', '地'] + go + seq!['号']
        + building
}

/// The full address of a property, from its first seven columns.
pub open spec fn full_address_of(p: PropertyView) -> Seq<char> {
    address_of(
        p.columns[0],
        p.columns[1],
        p.columns[2],
        p.columns[3],
        p.columns[4],
        p.columns[5],
        p.columns[6],
    )
}

/// A property as it stands in the store: a synthetic id and eleven textual
/// columns, kept exactly as they were read.
#[derive(Debug)]
pub struct Property {
    pub id: usize,
    pub prefecture: String,
    pub city: String,
    pub town: String,
    pub chome: String,
    pub banchi: String,
    pub go: String,
    pub building: String,
    pub price: String,
    pub nearest_station: String,
    pub property_type: String,
    pub land_area: String,
}

/// The mathematical value of a property: its id and its eleven columns, in
/// the order in which they stand in a CSV row.
pub ghost struct PropertyView {
    pub id: nat,
    pub columns: Seq<Seq<char>>,
}

impl View for Property {
    type V = PropertyView;

    open spec fn view(&self) -> PropertyView {
        PropertyView {
            id: self.id as nat,
            columns: seq![
                self.prefecture@,
                self.city@,
                self.town@,
                self.chome@,
                self.banchi@,
                self.go@,
                self.building@,
                self.price@,
                self.nearest_station@,
                self.property_type@,
                self.land_area@,
            ],
        }
    }
}

impl Property {
    /// A copy of this property.
    pub fn duplicate(&self) -> (r: Property)
        ensures
            r@ == self@,
    {
        Property {
            id: self.id,
            prefecture: self.prefecture.clone(),
            city: self.city.clone(),
            town: self.town.clone(),
            chome: self.chome.clone(),
            banchi: self.banchi.clone(),
            go: self.go.clone(),
            building: self.building.clone(),
            price: self.price.clone(),
            nearest_station: self.nearest_station.clone(),
            property_type: self.property_type.clone(),
            land_area: self.land_area.clone(),
        }
    }

    /// The full address, computed afresh from the seven address components.
    pub fn full_address(&self) -> (r: String)
        ensures
            r@ == full_address_of(self@),
    {
        proof {
            reveal_strlit("丁目");
            reveal_strlit("番地");
            reveal_strlit("号");
        }
        let mut r = self.prefecture.clone();
        r.append(self.city.as_str());
        r.append(self.town.as_str());
        r.append(self.chome.as_str());
        r.append("丁目");
        r.append(self.banchi.as_str());
        r.append("番地");
        r.append(self.go.as_str());
        r.append("号");
        r.append(self.building.as_str());
        assert(r@ =~= full_address_of(self@));
        r
    }

    /// The form in which a property is shown to clients: every column, the
    /// id, and the full address.
    pub fn present(&self) -> (r: PresentedProperty)
        ensures
            r.id == self.id,
            r.full_address@ == full_address_of(self@),
            r.prefecture == self.prefecture,
            r.city == self.city,
            r.town == self.town,
            r.chome == self.chome,
            r.banchi == self.banchi,
            r.go == self.go,
            r.building == self.building,
            r.price == self.price,
            r.nearest_station == self.nearest_station,
            r.property_type == self.property_type,
            r.land_area == self.land_area,
    {
        PresentedProperty {
            id: self.id,
            full_address: self.full_address(),
            prefecture: self.prefecture.clone(),
            city: self.city.clone(),
            town: self.town.clone(),
            chome: self.chome.clone(),
            banchi: self.banchi.clone(),
            go: self.go.clone(),
            building: self.building.clone(),
            price: self.price.clone(),
            nearest_station: self.nearest_station.clone(),
            property_type: self.property_type.clone(),
            land_area: self.land_area.clone(),
        }
    }
}

/// A property as clients see it, with its full address rendered.
pub struct PresentedProperty {
    pub id: usize,
    pub full_address: String,
    pub prefecture: String,
    pub city: String,
    pub town: String,
    pub chome: String,
    pub banchi: String,
    pub go: String,
    pub building: String,
    pub price: String,
    pub nearest_station: String,
    pub property_type: String,
    pub land_area: String,
}

/// The full address depends on the seven address components alone: two
/// properties that agree on them render the same address, whatever their
/// ids and other columns.
pub proof fn lemma_address_from_components(a: PropertyView, b: PropertyView)
    requires
        a.columns.len() >= 7,
        b.columns.len() >= 7,
        forall|k: int| 0 <= k < 7 ==> a.columns[k] == b.columns[k],
    ensures
        full_address_of(a) == full_address_of(b),
{
    assert(a.columns[0] == b.columns[0]);
    assert(a.columns[1] == b.columns[1]);
    assert(a.columns[2] == b.columns[2]);
    assert(a.columns[3] == b.columns[3]);
    assert(a.columns[4] == b.columns[4]);
    assert(a.columns[5] == b.columns[5]);
    assert(a.columns[6] == b.columns[6]);
}

/// The views of a sequence of properties.
pub open spec fn views_of(v: Seq<Property>) -> Seq<PropertyView> {
    v.map_values(|p: Property| p@)
}

/// Whether some property of `s` has the given id.
pub open spec fn has_id(s: Seq<PropertyView>, id: nat) -> bool {
    exists|k: int| 0 <= k < s.len() && #[trigger] s[k].id == id
}

/// Whether the ids of `s` increase strictly, and so are unique.
pub open spec fn ids_increasing(s: Seq<PropertyView>) -> bool {
    forall|j: int, k: int| 0 <= j < k < s.len() ==> #[trigger] s[j].id < #[trigger] s[k].id
}

} // verus!
