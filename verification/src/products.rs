//! Products and the record of their current state.

use crate::codec::{
    copy_texts, field_number, field_optional_number, field_text, field_texts, field_views,
    frame_fields, number_field, number_of, optional_number_field, optional_number_of, tag_field,
    text_bytes, text_of, texts_field, texts_of, unframe, unframe_fields,
};
use crate::identity::{Identity, MAX_IDENTITY_BYTES, copy_bytes};
use crate::table::Stored;
use vstd::prelude::*;
use vstd::string::*;
use vstd::utf8::*;

verus! {

/// The current label of a product. Any status may follow any other: the
/// plausibility of a custody chain is judged on the recorded events, not on
/// this label.
#[derive(Clone, Copy, Debug, PartialEq, Eq, Structural)]
pub enum ProductStatus {
    Created,
    InWarehouse,
    InTransit,
    Delivered,
    Sold,
    Lost,
    Damaged,
}

impl ProductStatus {
    /// The status that a one-byte field stands for.
    pub open spec fn of_field(field: Seq<u8>) -> Option<ProductStatus> {
        if field.len() != 1 {
            None
        } else if field[0] == 0 {
            Some(ProductStatus::Created)
        } else if field[0] == 1 {
            Some(ProductStatus::InWarehouse)
        } else if field[0] == 2 {
            Some(ProductStatus::InTransit)
        } else if field[0] == 3 {
            Some(ProductStatus::Delivered)
        } else if field[0] == 4 {
            Some(ProductStatus::Sold)
        } else if field[0] == 5 {
            Some(ProductStatus::Lost)
        } else if field[0] == 6 {
            Some(ProductStatus::Damaged)
        } else {
            None
        }
    }

    /// The name of the status.
    pub open spec fn spec_name(self) -> Seq<char> {
        match self {
            ProductStatus::Created => "Created"@,
            ProductStatus::InWarehouse => "InWarehouse"@,
            ProductStatus::InTransit => "InTransit"@,
            ProductStatus::Delivered => "Delivered"@,
            ProductStatus::Sold => "Sold"@,
            ProductStatus::Lost => "Lost"@,
            ProductStatus::Damaged => "Damaged"@,
        }
    }

    /// The byte that stands for the status in a stored record.
    pub fn tag(self) -> (tag: u8)
        ensures
            ProductStatus::of_field(seq![tag]) == Some(self),
    {
        match self {
            ProductStatus::Created => 0,
            ProductStatus::InWarehouse => 1,
            ProductStatus::InTransit => 2,
            ProductStatus::Delivered => 3,
            ProductStatus::Sold => 4,
            ProductStatus::Lost => 5,
            ProductStatus::Damaged => 6,
        }
    }

    /// Reads the status that a field stands for.
    pub fn from_field(field: &Vec<u8>) -> (status: Option<ProductStatus>)
        ensures
            status == ProductStatus::of_field(field@),
    {
        if field.len() != 1 {
            None
        } else if field[0] == 0 {
            Some(ProductStatus::Created)
        } else if field[0] == 1 {
            Some(ProductStatus::InWarehouse)
        } else if field[0] == 2 {
            Some(ProductStatus::InTransit)
        } else if field[0] == 3 {
            Some(ProductStatus::Delivered)
        } else if field[0] == 4 {
            Some(ProductStatus::Sold)
        } else if field[0] == 5 {
            Some(ProductStatus::Lost)
        } else if field[0] == 6 {
            Some(ProductStatus::Damaged)
        } else {
            None
        }
    }

    /// The name of the status.
    pub fn name(self) -> (name: String)
        ensures
            name@ == self.spec_name(),
    {
        match self {
            ProductStatus::Created => String::from_str("Created"),
            ProductStatus::InWarehouse => String::from_str("InWarehouse"),
            ProductStatus::InTransit => String::from_str("InTransit"),
            ProductStatus::Delivered => String::from_str("Delivered"),
            ProductStatus::Sold => String::from_str("Sold"),
            ProductStatus::Lost => String::from_str("Lost"),
            ProductStatus::Damaged => String::from_str("Damaged"),
        }
    }
}

/// The current state of a product. It is owned by exactly one identity at
/// any time, and only that owner may change it.
#[derive(Debug)]
pub struct Product {
    pub id: String,
    pub name: String,
    pub description: String,
    /// Who created the product.
    pub supplier_id: Identity,
    /// Who may change the product next.
    pub current_owner: Identity,
    pub status: ProductStatus,
    pub created_at: u64,
    pub updated_at: u64,
    pub batch_number: String,
    pub expiry_date: Option<u64>,
    /// The price as the bit pattern of a double-precision number. It is
    /// carried as given and never computed with.
    pub price_bits: u64,
    pub quantity: u32,
    pub category: String,
    pub origin: String,
    pub certifications: Vec<String>,
}

/// A [`Product`] as a mathematical value.
pub struct ProductView {
    pub id: Seq<char>,
    pub name: Seq<char>,
    pub description: Seq<char>,
    pub supplier_id: Seq<u8>,
    pub current_owner: Seq<u8>,
    pub status: ProductStatus,
    pub created_at: u64,
    pub updated_at: u64,
    pub batch_number: Seq<char>,
    pub expiry_date: Option<u64>,
    pub price_bits: u64,
    pub quantity: u32,
    pub category: Seq<char>,
    pub origin: Seq<char>,
    pub certifications: Seq<Seq<char>>,
}

impl View for Product {
    type V = ProductView;

    open spec fn view(&self) -> ProductView {
        ProductView {
            id: self.id@,
            name: self.name@,
            description: self.description@,
            supplier_id: self.supplier_id@,
            current_owner: self.current_owner@,
            status: self.status,
            created_at: self.created_at,
            updated_at: self.updated_at,
            batch_number: self.batch_number@,
            expiry_date: self.expiry_date,
            price_bits: self.price_bits,
            quantity: self.quantity,
            category: self.category@,
            origin: self.origin@,
            certifications: self.certifications.deep_view(),
        }
    }
}

/// The number of fields of a stored product.
pub const PRODUCT_FIELDS: usize = 15;

/// The key under which the product with this id is kept.
pub open spec fn product_key(id: Seq<char>) -> Seq<u8> {
    encode_utf8(id)
}

/// The product that a list of fields holds, if it holds one.
pub open spec fn product_of_fields(fields: Seq<Seq<u8>>) -> Option<ProductView> {
    if fields.len() == PRODUCT_FIELDS && text_of(fields[0]) is Some && text_of(fields[1]) is Some
        && text_of(fields[2]) is Some && fields[3].len() <= MAX_IDENTITY_BYTES && fields[4].len()
        <= MAX_IDENTITY_BYTES && ProductStatus::of_field(fields[5]) is Some && number_of(
        fields[6],
    ) is Some && number_of(fields[7]) is Some && text_of(fields[8]) is Some && optional_number_of(
        fields[9],
    ) is Some && number_of(fields[10]) is Some && number_of(fields[11]) is Some && number_of(
        fields[11],
    )->0 <= u32::MAX && text_of(fields[12]) is Some && text_of(fields[13]) is Some && texts_of(
        fields[14],
    ) is Some {
        Some(
            ProductView {
                id: text_of(fields[0])->0,
                name: text_of(fields[1])->0,
                description: text_of(fields[2])->0,
                supplier_id: fields[3],
                current_owner: fields[4],
                status: ProductStatus::of_field(fields[5])->0,
                created_at: number_of(fields[6])->0,
                updated_at: number_of(fields[7])->0,
                batch_number: text_of(fields[8])->0,
                expiry_date: optional_number_of(fields[9])->0,
                price_bits: number_of(fields[10])->0,
                quantity: number_of(fields[11])->0 as u32,
                category: text_of(fields[12])->0,
                origin: text_of(fields[13])->0,
                certifications: texts_of(fields[14])->0,
            },
        )
    } else {
        None
    }
}

/// The product that a stored record holds, if it holds one.
pub open spec fn decode_product(bytes: Seq<u8>) -> Option<ProductView> {
    match unframe(bytes) {
        Some(fields) => product_of_fields(fields),
        None => None,
    }
}

impl Stored for Product {
    open spec fn decode(bytes: Seq<u8>) -> Option<ProductView> {
        decode_product(bytes)
    }

    open spec fn key_of(record: ProductView) -> Seq<u8> {
        product_key(record.id)
    }

    fn to_bytes(&self) -> (bytes: Vec<u8>) {
        let mut fields: Vec<Vec<u8>> = Vec::new();
        fields.push(text_bytes(&self.id));
        fields.push(text_bytes(&self.name));
        fields.push(text_bytes(&self.description));
        fields.push(copy_bytes(self.supplier_id.as_bytes()));
        fields.push(copy_bytes(self.current_owner.as_bytes()));
        fields.push(tag_field(self.status.tag()));
        fields.push(number_field(self.created_at));
        fields.push(number_field(self.updated_at));
        fields.push(text_bytes(&self.batch_number));
        fields.push(optional_number_field(self.expiry_date));
        fields.push(number_field(self.price_bits));
        fields.push(number_field(self.quantity as u64));
        fields.push(text_bytes(&self.category));
        fields.push(text_bytes(&self.origin));
        fields.push(texts_field(&self.certifications));
        let bytes = frame_fields(&fields);
        proof {
            let views = field_views(fields@);
            assert(product_of_fields(views) == Some(self@));
        }
        bytes
    }

    fn from_bytes(bytes: &Vec<u8>) -> (record: Option<Product>) {
        let fields = unframe_fields(bytes)?;
        let ghost views = field_views(fields@);
        if fields.len() != PRODUCT_FIELDS {
            return None;
        }
        assert(forall|i: int| 0 <= i < 15 ==> views[i] == (#[trigger] fields@[i])@);
        let id = field_text(&fields[0])?;
        let name = field_text(&fields[1])?;
        let description = field_text(&fields[2])?;
        let supplier_id = Identity::from_bytes(copy_bytes(&fields[3]))?;
        let current_owner = Identity::from_bytes(copy_bytes(&fields[4]))?;
        let status = ProductStatus::from_field(&fields[5])?;
        let created_at = field_number(&fields[6])?;
        let updated_at = field_number(&fields[7])?;
        let batch_number = field_text(&fields[8])?;
        let expiry_date = field_optional_number(&fields[9])?;
        let price_bits = field_number(&fields[10])?;
        let quantity = field_number(&fields[11])?;
        if quantity > u32::MAX as u64 {
            return None;
        }
        let category = field_text(&fields[12])?;
        let origin = field_text(&fields[13])?;
        let certifications = field_texts(&fields[14])?;
        Some(
            Product {
                id,
                name,
                description,
                supplier_id,
                current_owner,
                status,
                created_at,
                updated_at,
                batch_number,
                expiry_date,
                price_bits,
                quantity: quantity as u32,
                category,
                origin,
                certifications,
            },
        )
    }

    fn key(&self) -> (key: Vec<u8>) {
        text_bytes(&self.id)
    }
}

impl Clone for Product {
    fn clone(&self) -> (copy: Product)
        ensures
            copy@ == self@,
    {
        Product {
            id: self.id.clone(),
            name: self.name.clone(),
            description: self.description.clone(),
            supplier_id: self.supplier_id.clone(),
            current_owner: self.current_owner.clone(),
            status: self.status,
            created_at: self.created_at,
            updated_at: self.updated_at,
            batch_number: self.batch_number.clone(),
            expiry_date: self.expiry_date,
            price_bits: self.price_bits,
            quantity: self.quantity,
            category: self.category.clone(),
            origin: self.origin.clone(),
            certifications: copy_texts(&self.certifications),
        }
    }
}

} // verus!
